//! How a read can fail.

use vstd::prelude::*;
use std::io::Error;

verus! {

/// `std::io::Error`, the error of a stream's own read or write. Nothing is
/// claimed of what such a value holds: the library only hands it on.
#[verifier::external_type_specification]
#[verifier::external_body]
pub struct ExError(std::io::Error);

/// Why a read gave no value.
#[derive(Debug)]
pub enum ReadError {
    /// The stream's own read failed, with this error.
    Stream(Error),
    /// The stream gave `got` bytes where the value takes `wanted`.
    Incomplete { wanted: usize, got: usize },
}

/// What a read of `width` bytes comes to when `bytes` came: `value`, if they
/// are exactly `width`, and else the incomplete read that they are.
pub open spec fn complete<T>(bytes: Seq<u8>, width: usize, value: T) -> Result<T, ReadError> {
    if bytes.len() == width {
        Ok(value)
    } else {
        Err(ReadError::Incomplete { wanted: width, got: bytes.len() as usize })
    }
}

impl ReadError {
    /// Whether the stream came up short, as opposed to failing.
    pub fn is_incomplete(&self) -> (incomplete: bool)
        ensures
            incomplete == (self is Incomplete),
    {
        match self {
            ReadError::Incomplete { .. } => true,
            ReadError::Stream(_) => false,
        }
    }
}

} // verus!
