use vstd::prelude::*;

verus! {

/// The kinds of failure that a reader or a writer of this crate reports.
#[derive(Debug, Clone, Copy, PartialEq, Eq, Structural)]
pub enum IoErrorKind {
    /// The reader ran out of bytes before the request was filled.
    UnexpectedEof,
    /// The writer had no room left for the bytes it was given.
    WriteZero,
    /// A byte that was read does not encode a value of the requested type.
    InvalidData,
}

/// Errors that can arise while serializing or deserializing.
#[derive(Debug, Clone, Copy, PartialEq, Eq, Structural)]
pub enum SerializationError {
    /// During serialization, we didn't have enough space to write extra info.
    NotEnoughSpace,
    /// During serialization, the data was invalid.
    InvalidData,
    /// During serialization, non-empty flags were given where none were expected.
    UnexpectedFlags,
    /// During serialization, we encountered an I/O error.
    IoError(IoErrorKind),
}

} // verus!
