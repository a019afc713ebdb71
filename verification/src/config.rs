//! The names and patterns that the record file is written with.
use vstd::prelude::*;

verus! {

/// Where the records are kept when no other path is given.
pub const DEFAULT_PATH: &'static str = "./expense_db.psv";

/// The name of the record file inside the data directory.
pub const FILE_NAME: &'static str = "expense_db.psv";

/// A line of field names. The file of records does not start with one.
pub const HEADER: &'static str = "category,amount,description,tags";

/// The pattern of a written time: date, time of day to the millisecond, and
/// the offset from UTC.
pub const TIME_FORMAT: &'static str = "%Y-%m-%d %H:%M:%S%.3f%z";

} // verus!
