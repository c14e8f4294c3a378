//! The failures that building a content script can report.

use vstd::prelude::*;
use vstd::string::StringExecFns;

verus! {

/// What went wrong while loading or encoding script content.
#[derive(Debug)]
pub enum ADHDError {
    /// A source file's extension is not one that its directory accepts; holds
    /// the file's path.
    InvalidFileExtension(String),
    /// Every candidate delimiter occurs in a segment; holds that segment.
    CharactersExhausted(String),
}

impl ADHDError {
    /// The text that the error carries: the path, or the segment.
    pub open spec fn subject(&self) -> Seq<char> {
        match self {
            ADHDError::InvalidFileExtension(path) => path@,
            ADHDError::CharactersExhausted(segment) => segment@,
        }
    }

    /// The error as a line for a person to read.
    pub open spec fn message_text(&self) -> Seq<char> {
        match self {
            ADHDError::InvalidFileExtension(path) => "invalid file extension at path "@ + path@,
            ADHDError::CharactersExhausted(segment) =>
                "characters exhausted when attempting to contain string '"@ + segment@ + "'"@,
        }
    }

    /// Renders the error as a line for a person to read.
    pub fn message(&self) -> (r: String)
        ensures
            r@ == self.message_text(),
    {
        match self {
            ADHDError::InvalidFileExtension(path) => {
                String::from_str("invalid file extension at path ").concat(path.as_str())
            },
            ADHDError::CharactersExhausted(segment) => {
                String::from_str("characters exhausted when attempting to contain string '")
                    .concat(segment.as_str()).concat("'")
            },
        }
    }
}

} // verus!
