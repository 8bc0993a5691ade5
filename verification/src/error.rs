//! The codec's failure values.
//!
//! Every read and write operation returns a typed result; a failure at any
//! item aborts the whole enclosing message and is surfaced to the caller
//! unchanged. Nothing here is fatal to the process.

use vstd::prelude::*;

verus! {

/// A failure while writing a value to a buffer.
#[derive(Debug, Clone, Copy, PartialEq, Eq, Structural)]
pub enum WriteError {
    /// The destination buffer's remaining room is smaller than the value's
    /// reported size. Detected before any byte is written.
    CapacityTooLow,
}

/// A failure while reading a value from a buffer.
#[derive(Debug, Clone, Copy, PartialEq, Eq, Structural)]
pub enum ReadError {
    /// The bytes do not form a valid value of the target type, or the buffer
    /// ends before the value does.
    InvalidData,
    /// A variant set's leading tag byte is outside the declared set.
    UnrecognizedDiscriminant,
}

/// The result of a write operation.
pub type WriteResult<T = ()> = Result<T, WriteError>;

/// The result of a read operation.
pub type ReadResult<T> = Result<T, ReadError>;

} // verus!
