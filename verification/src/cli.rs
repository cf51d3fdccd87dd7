//! The command-line surface's one decision: exactly one positional
//! argument, the path to the repository.

use vstd::prelude::*;
use crate::errors::HistoryError;

verus! {

/// What an invocation asks for: the repository to enumerate.
pub struct Config {
    pub repo_path: String,
}

/// Validates the argument vector (the program name and its arguments, as
/// invoked): exactly one positional argument is accepted, and becomes the
/// repository path; any other count is the usage error, reported before
/// any repository access is attempted.
pub fn parse_args(args: &Vec<String>) -> (r: Result<Config, HistoryError>)
    ensures
        match r {
            Result::Ok(c) => args@.len() == 2 && c.repo_path@ == args@[1]@,
            Result::Err(e) => e == HistoryError::FailedToParseArgs && args@.len() != 2,
        },
{
    if args.len() != 2 {
        return Result::Err(HistoryError::FailedToParseArgs);
    }
    Result::Ok(Config { repo_path: args[1].clone() })
}

} // verus!
