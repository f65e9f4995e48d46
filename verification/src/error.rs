//! The library's error kinds.

use vstd::prelude::*;

verus! {

/// Every failure the pipeline distinguishes.
#[derive(Clone, Copy, Debug, PartialEq, Eq, Structural)]
pub enum XavError {
    /// Building or reading the source index failed.
    IndexError,
    /// A frame could not be extracted.
    DecodeError,
    /// The encoder binary could not be started.
    SpawnError,
    /// The encoder child returned a non-zero status.
    EncoderExitError,
    /// The working directory or the resume file could not be used.
    IOError,
    /// The command line was missing or malformed.
    ArgError,
    /// No saved argument vector exists for the given input.
    ResumeMissing,
}

impl XavError {
    /// A short, stable description of the error kind.
    pub fn describe(&self) -> (r: &'static str)
    {
        match self {
            XavError::IndexError => "failed to index the source",
            XavError::DecodeError => "failed to extract a frame",
            XavError::SpawnError => "failed to start the encoder",
            XavError::EncoderExitError => "encoder exited with an error",
            XavError::IOError => "working directory or resume file error",
            XavError::ArgError => "missing or malformed arguments",
            XavError::ResumeMissing => "no saved encoding found for this input file",
        }
    }
}

} // verus!
