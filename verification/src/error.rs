//! Errors of the schema layer, wrapping the errors of the I/O layer.
use crate::io;
use vstd::prelude::*;

verus! {

/// Why decoding failed.
#[derive(Debug, PartialEq, Eq)]
pub enum ReadError {
    /// The underlying reader could not supply the requested bytes.
    Io(io::ReadError),
    /// An exact decode consumed less than the whole input.
    TrailingBytes,
    /// A byte pattern that is not a value of the decoded type (such as a `bool` byte above 1).
    InvalidValue,
    /// An enum tag that names no variant.
    InvalidTagEncoding(usize),
    /// A decoded length would allocate more than the configured preallocation limit.
    PreallocationSizeLimit { needed: usize, limit: usize },
    /// A length does not fit in the integer type that carries it; names that type's bound.
    LengthEncodingOverflow(&'static str),
}

/// Why encoding failed.
#[derive(Debug, PartialEq, Eq)]
pub enum WriteError {
    /// The underlying writer had no room for the requested bytes.
    Io(io::WriteError),
    /// A length does not fit in the integer type that carries it; names that type's bound.
    LengthEncodingOverflow(&'static str),
    /// The encoded size does not fit in a `usize`.
    SizeOverflow,
}

pub type ReadResult<T> = Result<T, ReadError>;

pub type WriteResult<T> = Result<T, WriteError>;

/// The error of an exact decode that left input unread.
pub fn trailing_bytes() -> (e: ReadError)
    ensures
        e == ReadError::TrailingBytes,
{
    ReadError::TrailingBytes
}

/// The error of a decoded length that does not fit its carrier, whose bound is `max`.
pub fn read_length_encoding_overflow(max: &'static str) -> (e: ReadError)
    ensures
        e == ReadError::LengthEncodingOverflow(max),
{
    ReadError::LengthEncodingOverflow(max)
}

/// The error of a length to encode that does not fit its carrier, whose bound is `max`.
pub fn write_length_encoding_overflow(max: &'static str) -> (e: WriteError)
    ensures
        e == WriteError::LengthEncodingOverflow(max),
{
    WriteError::LengthEncodingOverflow(max)
}

/// Lift an I/O read error into the schema layer.
pub fn from_io_read<T>(r: io::ReadResult<T>) -> (out: ReadResult<T>)
    ensures
        out == match r {
            Ok(v) => Ok::<T, ReadError>(v),
            Err(e) => Err(ReadError::Io(e)),
        },
{
    match r {
        Ok(v) => Ok(v),
        Err(e) => Err(ReadError::Io(e)),
    }
}

/// Lift an I/O write error into the schema layer.
pub fn from_io_write<T>(r: io::WriteResult<T>) -> (out: WriteResult<T>)
    ensures
        out == match r {
            Ok(v) => Ok::<T, WriteError>(v),
            Err(e) => Err(WriteError::Io(e)),
        },
{
    match r {
        Ok(v) => Ok(v),
        Err(e) => Err(WriteError::Io(e)),
    }
}

} // verus!
