//! The library's error type.

use vstd::prelude::*;

verus! {

/// Error raised by the core operations.  Each variant carries a
/// human-readable description supplied at the failure site.
#[derive(Debug)]
pub enum CoreError {
    /// The encoder or the media inspector failed to run or reported failure.
    FFmpegError(String),
    /// Inspector output could not be understood.
    ParseError(String),
    /// A file operation failed.
    IoError(String),
    /// A job record could not be read or written.
    RecordError(String),
    /// A job record file was missing.
    JobNotFound(String),
    /// A job record held invalid data.
    InvalidJob(String),
    /// Configuration values were out of range.
    ConfigError(String),
    /// File metadata was missing or unusable.
    MetadataError(String),
}

impl CoreError {
    /// The description carried by the error.
    pub fn message(&self) -> (r: &str)
        ensures
            r@ == self.spec_message(),
    {
        match self {
            CoreError::FFmpegError(m) => m.as_str(),
            CoreError::ParseError(m) => m.as_str(),
            CoreError::IoError(m) => m.as_str(),
            CoreError::RecordError(m) => m.as_str(),
            CoreError::JobNotFound(m) => m.as_str(),
            CoreError::InvalidJob(m) => m.as_str(),
            CoreError::ConfigError(m) => m.as_str(),
            CoreError::MetadataError(m) => m.as_str(),
        }
    }

    /// The description carried by the error.
    pub open spec fn spec_message(self) -> Seq<char> {
        match self {
            CoreError::FFmpegError(m) => m@,
            CoreError::ParseError(m) => m@,
            CoreError::IoError(m) => m@,
            CoreError::RecordError(m) => m@,
            CoreError::JobNotFound(m) => m@,
            CoreError::InvalidJob(m) => m@,
            CoreError::ConfigError(m) => m@,
            CoreError::MetadataError(m) => m@,
        }
    }
}

} // verus!
