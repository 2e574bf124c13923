//! The errors of the library.

use vstd::prelude::*;
use vstd::string::StringExecFns;

verus! {

/// Why an operation on a source file failed. Each variant carries a
/// description of the failure.
#[derive(Debug)]
pub enum DocGenError {
    /// The source text could not be parsed.
    ParsingError(String),
    /// The text-generation service failed.
    LlmApiError(String),
    /// A file could not be read or written.
    FileError(String),
    /// A required option or credential is missing or not supported.
    ConfigError(String),
    /// An update could not be applied to the text it was meant for.
    UpdateError(String),
    /// Anything else.
    Unknown(String),
}

pub type DocGenResult<T> = Result<T, DocGenError>;

impl DocGenError {
    /// The description that the error carries.
    pub open spec fn detail(self) -> Seq<char> {
        match self {
            DocGenError::ParsingError(s) => s@,
            DocGenError::LlmApiError(s) => s@,
            DocGenError::FileError(s) => s@,
            DocGenError::ConfigError(s) => s@,
            DocGenError::UpdateError(s) => s@,
            DocGenError::Unknown(s) => s@,
        }
    }

    /// The words that introduce the description in a message.
    pub open spec fn heading(self) -> Seq<char> {
        match self {
            DocGenError::ParsingError(_) => "Failed to parse Python code: "@,
            DocGenError::LlmApiError(_) => "LLM API error: "@,
            DocGenError::FileError(_) => "File I/O error: "@,
            DocGenError::ConfigError(_) => "Configuration error: "@,
            DocGenError::UpdateError(_) => "Failed to update file content: "@,
            DocGenError::Unknown(_) => "Unknown error: "@,
        }
    }

    /// The message for a reader: the heading of the variant, then the
    /// description.
    pub fn message(&self) -> (r: String)
        ensures
            r@ == self.heading() + self.detail(),
    {
        match self {
            DocGenError::ParsingError(s) => String::from_str("Failed to parse Python code: ").concat(
                s.as_str(),
            ),
            DocGenError::LlmApiError(s) => String::from_str("LLM API error: ").concat(s.as_str()),
            DocGenError::FileError(s) => String::from_str("File I/O error: ").concat(s.as_str()),
            DocGenError::ConfigError(s) => String::from_str("Configuration error: ").concat(
                s.as_str(),
            ),
            DocGenError::UpdateError(s) => String::from_str("Failed to update file content: ").concat(
                s.as_str(),
            ),
            DocGenError::Unknown(s) => String::from_str("Unknown error: ").concat(s.as_str()),
        }
    }
}

} // verus!
