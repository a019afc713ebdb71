//! Which file to read: what is decided of paths once the file system has
//! been asked about them.
use crate::text::{chars_of, copy_range, string_of};
use vstd::prelude::*;

verus! {

/// What the file system says of a path.
#[derive(Clone, Copy, Debug, PartialEq, Eq, Structural)]
pub struct PathFacts {
    /// Something is there.
    pub exists: bool,
    /// What is there is a regular file.
    pub is_file: bool,
}

/// The words for a path at which nothing is.
pub const FILE_NOT_FOUND: &'static str = "File not found!";

/// The words for a path at which something other than a file is.
pub const NOT_A_FILE: &'static str = "Not a file";

/// Whether the records can be read at the path that was given. No path is
/// in order: the default path is then used. A path that was given must lead
/// to something, and that must be a file.
pub fn validate_file_path(arg_path: &Option<PathFacts>) -> (r: Result<(), &'static str>)
    ensures
        match *arg_path {
            None => r is Ok,
            Some(facts) => if !facts.exists {
                r matches Err(why) && why@ == FILE_NOT_FOUND@
            } else if !facts.is_file {
                r matches Err(why) && why@ == NOT_A_FILE@
            } else {
                r is Ok
            },
        },
{
    if let Some(facts) = arg_path {
        if !facts.exists {
            return Err(FILE_NOT_FOUND);
        } else if !facts.is_file {
            return Err(NOT_A_FILE);
        }
    }
    Ok(())
}

/// The path to read: the one that was given, or else the default.
pub fn generate_read_path<P>(file_path: Option<P>, default_path: P) -> (r: P)
    ensures
        r == match file_path {
            Some(path) => path,
            None => default_path,
        },
{
    match file_path {
        Some(path) => path,
        None => default_path,
    }
}

/// Where a path that the user gave leads; `H` is how the caller holds the
/// home directory.
#[derive(Debug)]
pub enum PathChoice<H> {
    /// To the path as it was given.
    Given(String),
    /// To `rest` below the home directory `home`.
    Home { home: H, rest: String },
}

/// The words for a path below a home directory that is not known.
pub const NO_HOME: &'static str = "Error constructing home directory";

/// Whether the path starts with `~/`, which stands for the home directory.
pub open spec fn below_home(path: Seq<char>) -> bool {
    path.len() >= 2 && path[0] == '~' && path[1] == '/'
}

/// Where the path that the user gave leads. A path that starts with `~/`
/// leads below the home directory, which must then be known; every other
/// path is taken as it is.
pub fn construct_file_path<H>(path: &str, home: Option<H>) -> (r: Result<
    PathChoice<H>,
    &'static str,
>)
    ensures
        match (below_home(path@), home) {
            (false, _) => r matches Ok(PathChoice::Given(p)) && p@ == path@,
            (true, None) => r matches Err(why) && why@ == NO_HOME@,
            (true, Some(dir)) => r matches Ok(PathChoice::Home { home: h, rest }) && h == dir
                && rest@ == path@.skip(2),
        },
{
    let chars = chars_of(path);
    if chars.len() >= 2 && chars[0] == '~' && chars[1] == '/' {
        match home {
            Some(dir) => {
                let rest = string_of(&copy_range(&chars, 2, chars.len()));
                assert(path@.subrange(2, path@.len() as int) =~= path@.skip(2));
                Ok(PathChoice::Home { home: dir, rest })
            },
            None => Err(NO_HOME),
        }
    } else {
        Ok(PathChoice::Given(string_of(&chars)))
    }
}

} // verus!
