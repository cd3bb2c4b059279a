//! What can stop a run.

use vstd::prelude::*;

verus! {

/// Why the file could not be read as text.
#[derive(Debug, Clone, Copy, PartialEq, Eq, Structural)]
pub enum ReadFailure {
    /// No file of that name exists.
    NotFound,
    /// The file may not be read.
    PermissionDenied,
    /// The file does not hold valid UTF-8 text.
    InvalidText,
    /// The read failed for another reason.
    Other,
}

/// Why a run cannot go on. Each of these ends the run: none is tried again.
#[derive(Debug, Clone, Copy, PartialEq, Eq, Structural)]
pub enum GrepError {
    /// The arguments name no query.
    MissingQuery,
    /// The arguments name a query, but no file.
    MissingFilename,
    /// The file could not be read.
    FileReadError(ReadFailure),
}

impl GrepError {
    /// The words of `message`.
    pub open spec fn message_text(self) -> Seq<char> {
        match self {
            GrepError::MissingQuery => "Didn't get a query string"@,
            GrepError::MissingFilename => "Didn't get the file name"@,
            GrepError::FileReadError(ReadFailure::NotFound) => "The file was not found"@,
            GrepError::FileReadError(ReadFailure::PermissionDenied) => "The file may not be read"@,
            GrepError::FileReadError(ReadFailure::InvalidText) => "The file is not valid UTF-8 text"@,
            GrepError::FileReadError(ReadFailure::Other) => "The file could not be read"@,
        }
    }

    /// A description of the error for the person who started the run.
    pub fn message(&self) -> (text: &'static str)
        ensures
            text@ == self.message_text(),
    {
        match self {
            GrepError::MissingQuery => "Didn't get a query string",
            GrepError::MissingFilename => "Didn't get the file name",
            GrepError::FileReadError(ReadFailure::NotFound) => "The file was not found",
            GrepError::FileReadError(ReadFailure::PermissionDenied) => "The file may not be read",
            GrepError::FileReadError(ReadFailure::InvalidText) => "The file is not valid UTF-8 text",
            GrepError::FileReadError(ReadFailure::Other) => "The file could not be read",
        }
    }
}

} // verus!
