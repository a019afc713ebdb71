//! What can go wrong while records are read or made.
use vstd::prelude::*;

verus! {

/// Why a line is no record.
#[derive(Clone, Copy, Debug, PartialEq, Eq, Structural)]
pub enum ParseCause {
    /// The line has this many fields, and not five.
    FieldCount(usize),
    /// The third field is no number.
    Amount,
    /// The first field is no time in the pattern of the file.
    Timestamp,
}

/// A line that is no record.
#[derive(Debug)]
pub struct ParseError {
    /// The line, without the white space at its ends.
    pub line: String,
    /// What is wrong with it.
    pub cause: ParseCause,
    /// The words in which the reader of the number or of the time refused
    /// its field; empty for a wrong count of fields.
    pub detail: String,
}

/// What of a new expense is not acceptable.
#[derive(Clone, Copy, Debug, PartialEq, Eq, Structural)]
pub enum Invalid {
    /// The amount is not greater than zero.
    Amount,
    /// The category is empty.
    Category,
}

/// Why an operation on the store failed.
#[derive(Debug)]
pub enum StoreError {
    /// There is no file at the path: no records yet.
    NotFound,
    /// A line of the file is no record.
    ParseError(ParseError),
    /// The file is there but could not be read or written; the text is the
    /// system's own.
    IOError(String),
    /// The expense to add is not acceptable.
    ValidationError(Invalid),
}

} // verus!
