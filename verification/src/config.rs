//! Invocation configuration and the library's error kinds.

use vstd::prelude::*;

verus! {

/// What went wrong. `MissingArgument` comes from building a `Config` out of
/// too few positional arguments; `IoError` carries the description of a
/// failure to read the file (a missing or unreadable file, or one that is
/// not valid text).
#[derive(Debug)]
pub enum GrepError {
    MissingArgument,
    IoError(String),
}

impl GrepError {
    /// A human-readable description of the error.
    pub fn message(&self) -> (msg: String)
        ensures
            self is MissingArgument ==> msg@ == "Not enough arguments"@,
            self is IoError ==> msg@ == self->IoError_0@,
    {
        match self {
            GrepError::MissingArgument => "Not enough arguments".to_owned(),
            GrepError::IoError(cause) => cause.clone(),
        }
    }
}

/// A validated invocation: the query, the name of the file to search, and
/// the case mode. `case_sensitive` is true unless the environment toggle
/// for case-insensitive matching was defined when the `Config` was built.
#[derive(Debug)]
pub struct Config {
    pub query: String,
    pub filename: String,
    pub case_sensitive: bool,
}

impl Config {
    /// Builds a `Config` from the positional arguments, program name first,
    /// and from whether the environment toggle for case-insensitive matching
    /// is defined (with any value, even empty). Fewer than three arguments
    /// fail with `MissingArgument`.
    pub fn new(args: &Vec<String>, case_insensitive: bool) -> (result: Result<Config, GrepError>)
        ensures
            result is Ok <==> args@.len() >= 3,
            result is Ok ==> {
                &&& result->Ok_0.query@ == args@[1]@
                &&& result->Ok_0.filename@ == args@[2]@
                &&& result->Ok_0.case_sensitive == !case_insensitive
            },
            result is Err ==> result->Err_0 is MissingArgument,
    {
        if args.len() < 3 {
            return Err(GrepError::MissingArgument);
        }
        let query = args[1].clone();
        let filename = args[2].clone();
        Ok(Config { query, filename, case_sensitive: !case_insensitive })
    }
}

} // verus!
