//! The schema traits: how a value is written as bytes and read back.
//!
//! Each schema states its wire format as a spec function: [`SchemaWrite::spec_encode`] gives
//! the bytes of a value (or the bound of a length carrier that a length in it passes) and
//! [`SchemaRead::spec_decode`] gives the value that a byte string starts with and how many
//! bytes it takes (or why there is none). The executable methods are proved against these,
//! and [`SchemaRoundtrip`] ties the two.
use crate::config::Config;
use crate::error::{ReadError, ReadResult, WriteError, WriteResult};
use crate::io::{drop_front, Reader, Writer};
use vstd::prelude::*;

pub mod containers;
mod primitives;

verus! {

/// What is known of a type's encoded size before seeing a value.
#[derive(Debug, Clone, Copy, PartialEq, Eq, Structural)]
pub enum TypeMeta {
    /// Every value encodes to exactly `size` bytes; `zero_copy` when the encoding is the
    /// in-memory representation.
    Static { size: usize, zero_copy: bool },
    /// The encoded size depends on the value.
    Dynamic,
}

/// The encoding of a value: its bytes, or, when a length in it does not fit the integer type
/// that carries it, the bound of that type (the first such length, in wire order).
pub type Encoding = Result<Seq<u8>, &'static str>;

/// The size that `size_of` reports for an encoding: its length; a size overflow when that
/// length does not fit in a `usize`; a length encoding overflow naming the bound that a
/// length passed when there is no encoding.
pub open spec fn size_outcome(enc: Encoding) -> WriteResult<usize> {
    match enc {
        Ok(b) => if b.len() <= usize::MAX {
            Ok(b.len() as usize)
        } else {
            Err(WriteError::SizeOverflow)
        },
        Err(max) => Err(WriteError::LengthEncodingOverflow(max)),
    }
}

/// The outcome of writing an encoding into a writer.
///
/// A value with an encoding that fits is written exactly and succeeds, replacing only as much
/// of what the writer held past its written bytes as the encoding is long. One that does not fit
/// fails with the writer's error, after the writer has accepted a prefix of the encoding
/// (writes are not transactional). A value without an encoding fails with a length encoding
/// overflow or, when the writer filled up first, with the writer's error.
pub open spec fn write_outcome<W: Writer>(
    before: W,
    after: W,
    enc: Encoding,
    r: WriteResult<()>,
) -> bool {
    match enc {
        Ok(b) => if b.len() <= before.free() {
            &&& r is Ok
            &&& after.written() =~= before.written() + b
            &&& after.free() == before.free() - b.len()
            &&& after.unwritten() == drop_front(before.unwritten(), b.len())
        } else {
            &&& r matches Err(WriteError::Io(_))
            &&& before.written().is_prefix_of(after.written())
            &&& after.written().is_prefix_of(before.written() + b)
        },
        Err(max) => {
            &&& (r == Err::<(), WriteError>(WriteError::LengthEncodingOverflow(max)) || r matches Err(
                WriteError::Io(_),
            ))
            &&& before.written().is_prefix_of(after.written())
        },
    }
}

/// The outcome of writing an encoding and then finishing the writer: that of the write; or,
/// for a writer that buffers, the whole encoding written and then finishing failing with the
/// writer's error.
pub open spec fn finished_outcome<W: Writer>(
    before: W,
    after: W,
    enc: Encoding,
    r: WriteResult<()>,
) -> bool {
    ||| write_outcome(before, after, enc, r)
    ||| {
        &&& !W::buffers_nothing()
        &&& r matches Err(WriteError::Io(_))
        &&& write_outcome(before, after, enc, Ok(()))
    }
}

/// The outcome of reading a value: when the readable bytes start with an encoding, its value
/// is returned and the reader, and its underlying source, move past it; otherwise the
/// decoding error is returned.
pub open spec fn read_outcome<T: DeepView>(
    before: Seq<u8>,
    after: Seq<u8>,
    source_before: Seq<u8>,
    source_after: Seq<u8>,
    dec: Result<(T::V, nat), ReadError>,
    r: ReadResult<T>,
) -> bool {
    match dec {
        Ok((v, n)) => {
            &&& r matches Ok(x) && x.deep_view() == v
            &&& n <= before.len()
            &&& after =~= before.skip(n as int)
            &&& source_after =~= source_before.skip(n as int)
        },
        Err(e) => r == Err::<T, ReadError>(e),
    }
}

/// The result of a whole decode: the decoded value, or the decoding error.
pub open spec fn decode_result<T: DeepView>(
    dec: Result<(T::V, nat), ReadError>,
    r: ReadResult<T>,
) -> bool {
    match dec {
        Ok((v, _)) => r matches Ok(x) && x.deep_view() == v,
        Err(e) => r == Err::<T, ReadError>(e),
    }
}

/// The result of an exact decode of `len` bytes: the decoded value when it takes all of
/// them, trailing bytes when it takes fewer, or the decoding error.
pub open spec fn exact_result<T: DeepView>(
    dec: Result<(T::V, nat), ReadError>,
    len: nat,
    r: ReadResult<T>,
) -> bool {
    match dec {
        Ok((v, n)) => if n == len {
            r matches Ok(x) && x.deep_view() == v
        } else {
            r == Err::<T, ReadError>(ReadError::TrailingBytes)
        },
        Err(e) => r == Err::<T, ReadError>(e),
    }
}

/// The result of encoding into a new vector: the encoding; an I/O error naming its size when
/// it is too long for a vector; a size overflow when its length does not fit in a `usize`;
/// a length encoding overflow when there is no encoding.
pub open spec fn encode_result(enc: Encoding, r: WriteResult<Vec<u8>>) -> bool {
    match enc {
        Err(max) => r == Err::<Vec<u8>, WriteError>(WriteError::LengthEncodingOverflow(max)),
        Ok(b) => if b.len() <= isize::MAX {
            r matches Ok(v) && v@ == b
        } else if b.len() <= usize::MAX {
            r == Err::<Vec<u8>, WriteError>(
                WriteError::Io(crate::io::WriteError::WriteSizeLimit(b.len() as usize)),
            )
        } else {
            r == Err::<Vec<u8>, WriteError>(WriteError::SizeOverflow)
        },
    }
}

/// Encode `src` with schema `S` into a new vector sized to fit.
pub fn encode_to_vec<C: Config, S: SchemaWrite<C>>(src: &S::Src) -> (r: WriteResult<Vec<u8>>)
    ensures
        encode_result(S::spec_encode(src.deep_view()), r),
{
    let capacity = S::size_of(src)?;
    if capacity > isize::MAX as usize {
        return Err(WriteError::Io(crate::io::write_size_limit(capacity)));
    }
    let mut buffer: Vec<u8> = Vec::with_capacity(capacity);
    S::write(&mut buffer, src)?;
    Ok(buffer)
}

/// A type that can be written in the wire format of configuration `C`.
pub trait SchemaWrite<C: Config> {
    /// The type of the values written.
    type Src: DeepView;

    spec fn spec_type_meta() -> TypeMeta;

    /// The bytes of a value, or the bound of the length carrier that a length in it passes.
    spec fn spec_encode(src: <Self::Src as DeepView>::V) -> Encoding;

    fn type_meta() -> (m: TypeMeta)
        ensures
            m == Self::spec_type_meta(),
    ;

    /// The number of bytes `src` encodes to.
    fn size_of(src: &Self::Src) -> (r: WriteResult<usize>)
        ensures
            r == size_outcome(Self::spec_encode(src.deep_view())),
    ;

    /// Write the encoding of `src`.
    fn write<W: Writer>(writer: &mut W, src: &Self::Src) -> (r: WriteResult<()>)
        ensures
            write_outcome(*old(writer), *final(writer), Self::spec_encode(src.deep_view()), r),
    ;

    /// A statically sized type encodes every value, to exactly its static size.
    proof fn lemma_encode_static(src: <Self::Src as DeepView>::V)
        ensures
            Self::spec_type_meta() matches TypeMeta::Static { size, .. } ==> Self::spec_encode(
                src,
            ) matches Ok(b) && b.len() == size,
    ;
}

/// A type that can be read in the wire format of configuration `C`, borrowing from input
/// that lives for `'de`.
pub trait SchemaRead<'de, C: Config> {
    /// The type of the values read.
    type Dst: DeepView;

    spec fn spec_type_meta() -> TypeMeta;

    /// The value that `bytes` starts with and how many bytes it takes, or why there is none.
    spec fn spec_decode(bytes: Seq<u8>) -> Result<(<Self::Dst as DeepView>::V, nat), ReadError>;

    fn type_meta() -> (m: TypeMeta)
        ensures
            m == Self::spec_type_meta(),
    ;

    /// Read a value.
    fn get<R: Reader<'de>>(reader: &mut R) -> (r: ReadResult<Self::Dst>)
        ensures
            read_outcome(
                old(reader).readable(),
                final(reader).readable(),
                old(reader).source(),
                final(reader).source(),
                Self::spec_decode(old(reader).readable()),
                r,
            ),
    ;

    /// Decoding looks at no byte past what it takes: a decoded value takes at most the bytes
    /// given, and decoding just the bytes it took gives the same result.
    proof fn lemma_decode_local(bytes: Seq<u8>)
        ensures
            Self::spec_decode(bytes) matches Ok((v, n)) ==> n <= bytes.len()
                && Self::spec_decode(bytes.take(n as int)) == Self::spec_decode(bytes),
    ;

    /// Bytes after a decoded value do not change it.
    proof fn lemma_decode_prefix(bytes: Seq<u8>, extra: Seq<u8>)
        ensures
            Self::spec_decode(bytes) is Ok ==> Self::spec_decode(bytes + extra)
                == Self::spec_decode(bytes),
    ;

    /// A statically sized type takes exactly its static size.
    proof fn lemma_decode_static(bytes: Seq<u8>)
        ensures
            Self::spec_type_meta() matches TypeMeta::Static { size, .. } ==> (Self::spec_decode(
                bytes,
            ) matches Ok((v, n)) ==> n == size),
    ;
}

/// A type that is read with a context value supplied by the caller.
pub trait SchemaReadContext<'de, C: Config, Ctx> {
    /// The type of the values read.
    type Dst: DeepView;

    /// The value that `bytes` starts with, given the context, and how many bytes it takes;
    /// or why there is none.
    spec fn spec_decode_with(ctx: Ctx, bytes: Seq<u8>) -> Result<
        (<Self::Dst as DeepView>::V, nat),
        ReadError,
    >;

    /// Read a value with the given context.
    fn get_with_context<R: Reader<'de>>(ctx: Ctx, reader: &mut R) -> (r: ReadResult<Self::Dst>)
        ensures
            read_outcome(
                old(reader).readable(),
                final(reader).readable(),
                old(reader).source(),
                final(reader).source(),
                Self::spec_decode_with(ctx, old(reader).readable()),
                r,
            ),
    ;
}

/// A type whose reading gives back what writing wrote.
pub trait SchemaRoundtrip<'de, C: Config>: SchemaWrite<C> + SchemaRead<
    'de,
    C,
    Dst = <Self as SchemaWrite<C>>::Src,
> {
    /// Whether reading `v` back stays within the configuration's decoding limits (the
    /// preallocation limit on each length).
    spec fn spec_within_limits(v: <<Self as SchemaWrite<C>>::Src as DeepView>::V) -> bool;

    /// Decoding the encoding of a value within the limits, followed by any bytes, gives the
    /// value back and takes exactly its encoding.
    proof fn lemma_roundtrip(v: <<Self as SchemaWrite<C>>::Src as DeepView>::V, extra: Seq<u8>)
        requires
            Self::spec_within_limits(v),
        ensures
            <Self as SchemaWrite<C>>::spec_encode(v) matches Ok(b) ==> <Self as SchemaRead<
                'de,
                C,
            >>::spec_decode(b + extra) == Ok::<_, ReadError>((v, b.len())),
    ;

    /// Writing and reading agree on what is known of the size.
    proof fn lemma_type_meta_agrees()
        ensures
            <Self as SchemaWrite<C>>::spec_type_meta() == <Self as SchemaRead<
                'de,
                C,
            >>::spec_type_meta(),
    ;
}

} // verus!
