//! What a run gives.

use crate::config::Config;
use crate::error::{GrepError, ReadFailure};
use crate::search::{matching_lines, matching_lines_ignoring_case, search, search_case_insensitive};
use vstd::prelude::*;

verus! {

/// What a run writes. Given the outcome of reading the file that `config`
/// names, returns the lines to write to standard output, in order: those that
/// hold the query, with or without regard to case as `config` says. Where the
/// file could not be read, nothing is to be written and the error says why.
pub fn run<'a>(config: &Config, file: Result<&'a str, ReadFailure>) -> (outcome: Result<
    Vec<&'a str>,
    GrepError,
>)
    ensures
        match file {
            Ok(contents) => {
                &&& outcome matches Ok(lines)
                &&& lines.deep_view() == if config.case_sensitive {
                    matching_lines(config.query@, contents@)
                } else {
                    matching_lines_ignoring_case(config.query@, contents@)
                }
            },
            Err(cause) => outcome == Err::<Vec<&str>, GrepError>(GrepError::FileReadError(cause)),
        },
{
    match file {
        Ok(contents) => {
            if config.case_sensitive {
                Ok(search(config.query.as_str(), contents))
            } else {
                Ok(search_case_insensitive(config.query.as_str(), contents))
            }
        },
        Err(cause) => Err(GrepError::FileReadError(cause)),
    }
}

} // verus!
