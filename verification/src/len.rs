//! Encodings of sequence lengths.
use crate::error::{self, ReadError, ReadResult, WriteError, WriteResult};
use crate::io::{Reader, Writer};
use crate::schema::{read_outcome, size_outcome, write_outcome, Encoding};
use vstd::bytes::{
    lemma_auto_spec_u32_to_from_le_bytes, lemma_auto_spec_u64_to_from_le_bytes,
    spec_u32_from_le_bytes, spec_u32_to_le_bytes, spec_u64_from_le_bytes, spec_u64_to_le_bytes,
    u32_from_le_bytes, u32_to_le_bytes, u64_from_le_bytes, u64_to_le_bytes,
};
use vstd::prelude::*;

verus! {

/// How the length of a sequence is written in front of its items.
pub trait SeqLen {
    /// The bytes of a length, or the carrier's bound when the length does not fit it.
    spec fn spec_encode_len(len: usize) -> Encoding;

    /// The length that `bytes` starts with and how many bytes it takes, or why there is none.
    spec fn spec_decode_len(bytes: Seq<u8>) -> Result<(usize, nat), ReadError>;

    fn size_of_len(len: usize) -> (r: WriteResult<usize>)
        ensures
            r == size_outcome(Self::spec_encode_len(len)),
    ;

    fn write_len<W: Writer>(writer: &mut W, len: usize) -> (r: WriteResult<()>)
        ensures
            write_outcome(*old(writer), *final(writer), Self::spec_encode_len(len), r),
    ;

    fn read_len<'de, R: Reader<'de>>(reader: &mut R) -> (r: ReadResult<usize>)
        ensures
            read_outcome(
                old(reader).readable(),
                final(reader).readable(),
                old(reader).source(),
                final(reader).source(),
                Self::spec_decode_len(old(reader).readable()),
                r,
            ),
    ;

    /// Decoding an encoded length, followed by any bytes, gives it back.
    proof fn lemma_len_roundtrip(len: usize, extra: Seq<u8>)
        ensures
            Self::spec_encode_len(len) matches Ok(b) ==> Self::spec_decode_len(b + extra) == Ok::<
                _,
                ReadError,
            >((len, b.len())),
    ;

    /// Decoding a length looks only at the bytes it takes.
    proof fn lemma_len_local(bytes: Seq<u8>, extra: Seq<u8>)
        ensures
            Self::spec_decode_len(bytes) matches Ok((l, n)) ==> n <= bytes.len()
                && Self::spec_decode_len(bytes.take(n as int)) == Self::spec_decode_len(bytes)
                && Self::spec_decode_len(bytes + extra) == Self::spec_decode_len(bytes),
    ;
}

/// Lengths as little-endian `u64`, the bincode default.
#[derive(Clone, Copy)]
pub struct BincodeLen;

/// Lengths as a little-endian fixed-width integer of type `T`.
pub struct FixIntLen<T>(pub T);

impl SeqLen for BincodeLen {
    open spec fn spec_encode_len(len: usize) -> Encoding {
        Ok(spec_u64_to_le_bytes(len as u64))
    }

    open spec fn spec_decode_len(bytes: Seq<u8>) -> Result<(usize, nat), ReadError> {
        if bytes.len() < 8 {
            Err(ReadError::Io(crate::io::ReadError::ReadSizeLimit(8)))
        } else if spec_u64_from_le_bytes(bytes.take(8)) > usize::MAX {
            Err(ReadError::LengthEncodingOverflow("usize::MAX"))
        } else {
            Ok((spec_u64_from_le_bytes(bytes.take(8)) as usize, 8))
        }
    }

    fn size_of_len(len: usize) -> (r: WriteResult<usize>) {
        proof {
            lemma_auto_spec_u64_to_from_le_bytes();
        }
        Ok(8)
    }

    fn write_len<W: Writer>(writer: &mut W, len: usize) -> (r: WriteResult<()>) {
        let bytes = u64_to_le_bytes(len as u64);
        error::from_io_write(writer.write(bytes.as_slice()))
    }

    fn read_len<'de, R: Reader<'de>>(reader: &mut R) -> (r: ReadResult<usize>) {
        let a = error::from_io_read(reader.take_array::<8>())?;
        let v = u64_from_le_bytes(a.as_slice());
        if v > usize::MAX as u64 {
            return Err(error::read_length_encoding_overflow("usize::MAX"));
        }
        Ok(v as usize)
    }

    proof fn lemma_len_roundtrip(len: usize, extra: Seq<u8>) {
        lemma_auto_spec_u64_to_from_le_bytes();
        let b = spec_u64_to_le_bytes(len as u64);
        assert((b + extra).take(8) =~= b);
    }

    proof fn lemma_len_local(bytes: Seq<u8>, extra: Seq<u8>) {
        if bytes.len() >= 8 {
            assert(bytes.take(8).take(8) =~= bytes.take(8));
            assert((bytes + extra).take(8) =~= bytes.take(8));
        }
    }
}

impl SeqLen for FixIntLen<u32> {
    open spec fn spec_encode_len(len: usize) -> Encoding {
        if len > u32::MAX {
            Err("u32::MAX")
        } else {
            Ok(spec_u32_to_le_bytes(len as u32))
        }
    }

    open spec fn spec_decode_len(bytes: Seq<u8>) -> Result<(usize, nat), ReadError> {
        if bytes.len() < 4 {
            Err(ReadError::Io(crate::io::ReadError::ReadSizeLimit(4)))
        } else {
            Ok((spec_u32_from_le_bytes(bytes.take(4)) as usize, 4))
        }
    }

    fn size_of_len(len: usize) -> (r: WriteResult<usize>) {
        proof {
            lemma_auto_spec_u32_to_from_le_bytes();
        }
        if len > u32::MAX as usize {
            return Err(error::write_length_encoding_overflow("u32::MAX"));
        }
        Ok(4)
    }

    fn write_len<W: Writer>(writer: &mut W, len: usize) -> (r: WriteResult<()>) {
        if len > u32::MAX as usize {
            return Err(error::write_length_encoding_overflow("u32::MAX"));
        }
        let bytes = u32_to_le_bytes(len as u32);
        error::from_io_write(writer.write(bytes.as_slice()))
    }

    fn read_len<'de, R: Reader<'de>>(reader: &mut R) -> (r: ReadResult<usize>) {
        let a = error::from_io_read(reader.take_array::<4>())?;
        let v = u32_from_le_bytes(a.as_slice());
        Ok(v as usize)
    }

    proof fn lemma_len_roundtrip(len: usize, extra: Seq<u8>) {
        lemma_auto_spec_u32_to_from_le_bytes();
        if len <= u32::MAX {
            let b = spec_u32_to_le_bytes(len as u32);
            assert((b + extra).take(4) =~= b);
        }
    }

    proof fn lemma_len_local(bytes: Seq<u8>, extra: Seq<u8>) {
        if bytes.len() >= 4 {
            assert(bytes.take(4).take(4) =~= bytes.take(4));
            assert((bytes + extra).take(4) =~= bytes.take(4));
        }
    }
}

} // verus!
