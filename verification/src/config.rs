//! What a run is asked to do.

use crate::error::GrepError;
use vstd::prelude::*;

verus! {

/// What to search for, where, and how.
#[derive(Debug, PartialEq, Eq)]
pub struct Config {
    /// The text to look for in each line.
    pub query: String,
    /// The path of the file to search.
    pub filename: String,
    /// Whether letter case counts in a match.
    pub case_sensitive: bool,
}

impl Config {
    /// Reads a configuration from the arguments of the program and from what
    /// the environment holds under `CASE_INSENSITIVE`: `None` where the
    /// variable is not set, else its value.
    ///
    /// The first argument is the program's name and is passed over; the second
    /// is the query, the third the file name, and any further ones are left
    /// unread. Letter case counts unless the variable is set, whatever it is
    /// set to.
    pub fn new(args: &[String], case_insensitive: Option<&str>) -> (made: Result<Config, GrepError>)
        ensures
            args@.len() < 2 ==> made == Err::<Config, GrepError>(GrepError::MissingQuery),
            args@.len() == 2 ==> made == Err::<Config, GrepError>(GrepError::MissingFilename),
            args@.len() > 2 ==> {
                &&& made matches Ok(config)
                &&& config.query@ == args@[1]@
                &&& config.filename@ == args@[2]@
                &&& config.case_sensitive == (case_insensitive is None)
            },
    {
        if args.len() < 2 {
            return Err(GrepError::MissingQuery);
        }
        if args.len() < 3 {
            return Err(GrepError::MissingFilename);
        }
        Ok(
            Config {
                query: args[1].clone(),
                filename: args[2].clone(),
                case_sensitive: case_insensitive.is_none(),
            },
        )
    }
}

} // verus!
