//! Errors of the image-processing pipeline.
use vstd::prelude::*;

verus! {

/// What can go wrong while an image is read, filtered or written.
#[derive(Clone, Debug, PartialEq, Eq)]
pub enum ProcessorError {
    /// A file could not be read or written.
    IO(String),
    /// An image could not be decoded or encoded.
    Image(String),
    /// A filter library could not be loaded, or lacks its entry point.
    Lib(String),
    /// The call into a filter failed, or its arguments could not be handed over.
    FFI(String),
}

impl ProcessorError {
    /// The message that the error carries.
    pub fn message(&self) -> (r: &String)
        ensures
            r == match self {
                ProcessorError::IO(m) => m,
                ProcessorError::Image(m) => m,
                ProcessorError::Lib(m) => m,
                ProcessorError::FFI(m) => m,
            },
    {
        match self {
            ProcessorError::IO(m) => m,
            ProcessorError::Image(m) => m,
            ProcessorError::Lib(m) => m,
            ProcessorError::FFI(m) => m,
        }
    }
}

} // verus!
