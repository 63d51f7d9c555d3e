//! Configuration-aware serialize and deserialize traits and functions.
//!
//! Deserialization applies the configuration's size limit: one [`LimitReader`] wraps the
//! input at the outermost boundary, so the whole operation reads at most that many bytes and
//! behaves as if the input were cut short at the limit.
use crate::config::Config;
use crate::error::{self, ReadError, ReadResult, WriteError, WriteResult};
use crate::io::{limit_reader::limited, LimitReader, Reader, ReaderMut, Writer};
use crate::schema::{
    decode_result, encode_result, encode_to_vec, exact_result, finished_outcome, size_outcome,
    SchemaRead, SchemaReadContext, SchemaWrite,
};
use vstd::prelude::*;

verus! {

/// The bytes a deserialization gets to see under a size limit: those of the input cut short
/// at the limit, if there is one.
pub open spec fn size_limited(bytes: Seq<u8>, limit: Option<usize>) -> Seq<u8> {
    match limit {
        Some(l) => limited(bytes, l),
        None => bytes,
    }
}

/// The outcome of a limited read: the decoding of what the limit lets through, with the
/// reader given back and its source moved past what was taken.
pub open spec fn limited_outcome<T: DeepView>(
    source_before: Seq<u8>,
    dec: Result<(T::V, nat), ReadError>,
    r: ReadResult<T>,
    source_after: Seq<u8>,
) -> bool {
    match dec {
        Ok((v, n)) => {
            &&& r matches Ok(x) && x.deep_view() == v
            &&& n <= source_before.len()
            &&& source_after =~= source_before.skip(n as int)
        },
        Err(e) => r == Err::<T, ReadError>(e),
    }
}

/// Read a value with `S`, through a [`LimitReader`] when `C` sets a deserialization size
/// limit; give the reader back.
fn get_limited<'de, C: Config, S: SchemaRead<'de, C>, R: Reader<'de>>(reader: R) -> (out: (
    ReadResult<S::Dst>,
    R,
))
    ensures
        limited_outcome::<S::Dst>(
            reader.source(),
            S::spec_decode(size_limited(reader.readable(), C::spec_deserialization_size_limit())),
            out.0,
            out.1.source(),
        ),
{
    match C::deserialization_size_limit() {
        Some(limit) => {
            let mut limited_reader = LimitReader::new(reader, limit);
            proof {
                limited_reader.lemma_readable_in_source();
            }
            let r = S::get(&mut limited_reader);
            (r, limited_reader.into_inner())
        },
        None => {
            let mut reader = reader;
            proof {
                reader.lemma_readable_in_source();
            }
            let r = S::get(&mut reader);
            (r, reader)
        },
    }
}

/// Read a value with `S` and a context, under `C`'s deserialization size limit.
fn get_limited_with_context<'de, C: Config, Ctx, S: SchemaReadContext<'de, C, Ctx>, R: Reader<'de>>(
    ctx: Ctx,
    reader: R,
) -> (r: ReadResult<S::Dst>)
    ensures
        decode_result::<S::Dst>(
            S::spec_decode_with(
                ctx,
                size_limited(reader.readable(), C::spec_deserialization_size_limit()),
            ),
            r,
        ),
{
    match C::deserialization_size_limit() {
        Some(limit) => {
            let mut limited_reader = LimitReader::new(reader, limit);
            S::get_with_context(ctx, &mut limited_reader)
        },
        None => {
            let mut reader = reader;
            S::get_with_context(ctx, &mut reader)
        },
    }
}

/// Serializing with a configuration given as a value.
pub trait Serialize<C: Config>: SchemaWrite<C> + Sized {
    /// Serialize `src` into a new vector.
    fn serialize(src: &Self::Src, config: C) -> (r: WriteResult<Vec<u8>>)
        ensures
            encode_result(Self::spec_encode(src.deep_view()), r),
    {
        encode_to_vec::<C, Self>(src)
    }

    /// Serialize `src` into `dst`, then finish it.
    ///
    /// This is not transactional: on failure `dst` may already hold a prefix of the
    /// encoding. To leave a fixed-size destination untouched on failure, check
    /// [`Self::serialized_size`] against its room first.
    fn serialize_into<W: Writer>(dst: &mut W, src: &Self::Src, config: C) -> (r: WriteResult<()>)
        ensures
            finished_outcome(*old(dst), *final(dst), Self::spec_encode(src.deep_view()), r),
    {
        Self::write(dst, src)?;
        error::from_io_write(dst.finish())
    }

    /// The number of bytes `src` serializes to.
    fn serialized_size(src: &Self::Src, config: C) -> (r: WriteResult<u64>)
        ensures
            r == match size_outcome(Self::spec_encode(src.deep_view())) {
                Ok(n) => Ok::<u64, WriteError>(n as u64),
                Err(e) => Err(e),
            },
    {
        match Self::size_of(src) {
            Ok(n) => Ok(n as u64),
            Err(e) => Err(e),
        }
    }
}

impl<T, C: Config> Serialize<C> for T where T: SchemaWrite<C> {

}

/// Deserializing from a byte slice with a configuration given as a value.
pub trait Deserialize<'de, C: Config>: SchemaRead<'de, C> + Sized {
    /// Deserialize a value from the front of `src`, within the configuration's size limit.
    fn deserialize(src: &'de [u8], config: C) -> (r: ReadResult<Self::Dst>)
        ensures
            decode_result::<Self::Dst>(
                Self::spec_decode(size_limited(src@, C::spec_deserialization_size_limit())),
                r,
            ),
    {
        get_limited::<C, Self, &'de [u8]>(src).0
    }

    /// Deserialize a value from the front of `src` into `dst`; on failure `dst` is left as
    /// it was.
    fn deserialize_into(src: &'de [u8], dst: &mut Self::Dst, config: C) -> (r: ReadResult<()>)
        ensures
            decode_result::<Self::Dst>(
                Self::spec_decode(size_limited(src@, C::spec_deserialization_size_limit())),
                match r {
                    Ok(_) => Ok(*final(dst)),
                    Err(e) => Err(e),
                },
            ),
            r is Err ==> *final(dst) == *old(dst),
    {
        let value = get_limited::<C, Self, &'de [u8]>(src).0?;
        *dst = value;
        Ok(())
    }
}

impl<'de, T, C: Config> Deserialize<'de, C> for T where T: SchemaRead<'de, C> {

}

/// Types readable for every input lifetime: they borrow nothing from the input.
pub trait SchemaReadOwned<C: Config>: for<'de> SchemaRead<'de, C> {

}

impl<C: Config, T> SchemaReadOwned<C> for T where T: for<'de> SchemaRead<'de, C> {

}

/// Deserializing from any reader with a configuration chosen by type.
pub trait DeserializeOwned<C: Config>: SchemaReadOwned<C> + Sized {
    /// Deserialize a value from `src`, within the configuration's size limit.
    fn deserialize_from<'de, R: Reader<'de>>(src: R) -> (r: ReadResult<
        <Self as SchemaRead<'de, C>>::Dst,
    >)
        ensures
            decode_result::<<Self as SchemaRead<'de, C>>::Dst>(
                <Self as SchemaRead<'de, C>>::spec_decode(
                    size_limited(src.readable(), C::spec_deserialization_size_limit()),
                ),
                r,
            ),
    {
        get_limited::<C, Self, R>(src).0
    }

    /// Deserialize a value from `src` into `dst`; on failure `dst` is left as it was.
    fn deserialize_from_into<'de, R: Reader<'de>>(
        src: R,
        dst: &mut <Self as SchemaRead<'de, C>>::Dst,
    ) -> (r: ReadResult<()>)
        ensures
            decode_result::<<Self as SchemaRead<'de, C>>::Dst>(
                <Self as SchemaRead<'de, C>>::spec_decode(
                    size_limited(src.readable(), C::spec_deserialization_size_limit()),
                ),
                match r {
                    Ok(_) => Ok(*final(dst)),
                    Err(e) => Err(e),
                },
            ),
            r is Err ==> *final(dst) == *old(dst),
    {
        let value = get_limited::<C, Self, R>(src).0?;
        *dst = value;
        Ok(())
    }
}

impl<T, C: Config> DeserializeOwned<C> for T where T: SchemaReadOwned<C> {

}

/// Serialize `src` into a new vector with configuration `config`.
pub fn serialize<T, C: Config>(src: &T, config: C) -> (r: WriteResult<Vec<u8>>) where
    T: SchemaWrite<C, Src = T> + DeepView,

    ensures
        encode_result(<T as SchemaWrite<C>>::spec_encode(src.deep_view()), r),
{
    <T as Serialize<C>>::serialize(src, config)
}

/// Serialize `src` into `dst` with configuration `config`, then finish it.
///
/// This is not transactional: on failure `dst` may already hold a prefix of the encoding.
pub fn serialize_into<T, C: Config, W: Writer>(dst: &mut W, src: &T, config: C) -> (r: WriteResult<()>) where
    T: SchemaWrite<C, Src = T> + DeepView,

    ensures
        finished_outcome(
            *old(dst),
            *final(dst),
            <T as SchemaWrite<C>>::spec_encode(src.deep_view()),
            r,
        ),
{
    <T as Serialize<C>>::serialize_into(dst, src, config)
}

/// The number of bytes `src` serializes to with configuration `config`.
pub fn serialized_size<T, C: Config>(src: &T, config: C) -> (r: WriteResult<u64>) where
    T: SchemaWrite<C, Src = T> + DeepView,

    ensures
        r == match size_outcome(<T as SchemaWrite<C>>::spec_encode(src.deep_view())) {
            Ok(n) => Ok::<u64, WriteError>(n as u64),
            Err(e) => Err(e),
        },
{
    <T as Serialize<C>>::serialized_size(src, config)
}

/// Deserialize a value from the front of `src` with configuration `config`.
pub fn deserialize<'de, T, C: Config>(src: &'de [u8], config: C) -> (r: ReadResult<T>) where
    T: SchemaRead<'de, C, Dst = T> + DeepView,

    ensures
        decode_result::<T>(
            <T as SchemaRead<'de, C>>::spec_decode(
                size_limited(src@, C::spec_deserialization_size_limit()),
            ),
            r,
        ),
{
    <T as Deserialize<'de, C>>::deserialize(src, config)
}

/// Deserialize a value from all of `src` with configuration `config`, failing with trailing
/// bytes when the value does not take all of it.
pub fn deserialize_exact<'de, T, C: Config>(src: &'de [u8], config: C) -> (r: ReadResult<T>) where
    T: SchemaRead<'de, C, Dst = T> + DeepView,

    ensures
        exact_result::<T>(
            <T as SchemaRead<'de, C>>::spec_decode(
                size_limited(src@, C::spec_deserialization_size_limit()),
            ),
            src@.len(),
            r,
        ),
{
    let (r, rest) = get_limited::<C, T, &'de [u8]>(src);
    let value = r?;
    if rest.len() == 0 {
        Ok(value)
    } else {
        Err(error::trailing_bytes())
    }
}

/// Deserialize a value from the front of `src`, reading it with the context `ctx`, with
/// configuration `config`.
pub fn deserialize_with_context<'de, Ctx, T, C: Config>(ctx: Ctx, src: &'de [u8], config: C) -> (r:
    ReadResult<T>) where T: SchemaReadContext<'de, C, Ctx, Dst = T> + DeepView,

    ensures
        decode_result::<T>(
            <T as SchemaReadContext<'de, C, Ctx>>::spec_decode_with(
                ctx,
                size_limited(src@, C::spec_deserialization_size_limit()),
            ),
            r,
        ),
{
    get_limited_with_context::<C, Ctx, T, &'de [u8]>(ctx, src)
}

/// Deserialize a value from the front of the mutable slice `src` with configuration
/// `config`.
pub fn deserialize_mut<'de, T, C: Config>(src: &'de mut [u8], config: C) -> (r: ReadResult<T>) where
    T: SchemaRead<'de, C, Dst = T> + DeepView,

    ensures
        decode_result::<T>(
            <T as SchemaRead<'de, C>>::spec_decode(
                size_limited(old(src)@, C::spec_deserialization_size_limit()),
            ),
            r,
        ),
{
    let reader: &'de mut [u8] = src;
    match C::deserialization_size_limit() {
        Some(limit) => {
            let mut limited_reader = LimitReader::new(reader, limit);
            T::get(&mut limited_reader)
        },
        None => {
            let mut reader = reader;
            T::get(&mut reader)
        },
    }
}

/// Deserialize a value from `src` with configuration `config`.
pub fn deserialize_from<'de, T, C: Config>(src: impl Reader<'de>, config: C) -> (r: ReadResult<T>) where
    T: for<'a> SchemaRead<'a, C, Dst = T> + DeepView,

    ensures
        decode_result::<T>(
            <T as SchemaRead<'de, C>>::spec_decode(
                size_limited(src.readable(), C::spec_deserialization_size_limit()),
            ),
            r,
        ),
{
    <T as DeserializeOwned<C>>::deserialize_from(src)
}

/// The outcome of a zero-copy read of `size` bytes from input of which the limit lets
/// `visible` through: the value those bytes represent, or a request refused with `size`.
pub open spec fn zero_copy_outcome<T>(
    visible: Seq<u8>,
    size: usize,
    value: spec_fn(Seq<u8>) -> T,
    r: ReadResult<T>,
) -> bool {
    if visible.len() < size {
        r == Err::<T, ReadError>(ReadError::Io(crate::io::ReadError::ReadSizeLimit(size)))
    } else {
        r == Ok::<T, ReadError>(value(visible.take(size as int)))
    }
}

/// Types read in place from the input bytes, borrowing them rather than copying.
pub trait ZeroCopy<C: Config>: Sized {
    /// How many bytes a value occupies.
    spec fn spec_size() -> usize;

    /// The value that `spec_size()` bytes represent.
    spec fn spec_from_bytes(bytes: Seq<u8>) -> Self;

    fn size() -> (n: usize)
        ensures
            n == Self::spec_size(),
    ;

    /// View exactly `spec_size()` bytes as a value.
    fn ref_from<'de>(bytes: &'de [u8]) -> (r: &'de Self)
        requires
            bytes@.len() == Self::spec_size(),
        ensures
            *r == Self::spec_from_bytes(bytes@),
    ;

    /// View exactly `spec_size()` bytes as a mutable value.
    fn mut_from<'de>(bytes: &'de mut [u8]) -> (r: &'de mut Self)
        requires
            old(bytes)@.len() == Self::spec_size(),
        ensures
            *r == Self::spec_from_bytes(old(bytes)@),
    ;

    /// Borrow a value from the front of `bytes`, within the configuration's size limit.
    fn from_bytes<'de>(bytes: &'de [u8], config: C) -> (r: ReadResult<&'de Self>)
        ensures
            zero_copy_outcome(
                size_limited(bytes@, C::spec_deserialization_size_limit()),
                Self::spec_size(),
                |b: Seq<u8>| Self::spec_from_bytes(b),
                match r {
                    Ok(x) => Ok(*x),
                    Err(e) => Err(e),
                },
            ),
    {
        let n = Self::size();
        let taken = match C::deserialization_size_limit() {
            Some(limit) => {
                let mut reader = LimitReader::new(bytes, limit);
                reader.take_borrowed(n)
            },
            None => {
                let mut reader = bytes;
                reader.take_borrowed(n)
            },
        };
        let window = error::from_io_read(taken)?;
        Ok(Self::ref_from(window))
    }

    /// Borrow a mutable value from the front of `bytes`, within the configuration's size
    /// limit.
    fn from_bytes_mut<'de>(bytes: &'de mut [u8], config: C) -> (r: ReadResult<&'de mut Self>)
        ensures
            zero_copy_outcome(
                size_limited(old(bytes)@, C::spec_deserialization_size_limit()),
                Self::spec_size(),
                |b: Seq<u8>| Self::spec_from_bytes(b),
                match r {
                    Ok(x) => Ok(*x),
                    Err(e) => Err(e),
                },
            ),
            r is Err ==> final(bytes)@ == old(bytes)@,
    {
        let n = Self::size();
        let source: &'de mut [u8] = bytes;
        let taken = match C::deserialization_size_limit() {
            Some(limit) => {
                let mut reader = LimitReader::new(source, limit);
                let taken = reader.take_borrowed_mut(n);
                let _rest = reader.into_inner();
                taken
            },
            None => {
                let mut reader = source;
                reader.take_borrowed_mut(n)
            },
        };
        let window = error::from_io_read(taken)?;
        Ok(Self::mut_from(window))
    }
}

/// A byte is its own one-byte representation.
impl<C: Config> ZeroCopy<C> for u8 {
    open spec fn spec_size() -> usize {
        1
    }

    open spec fn spec_from_bytes(bytes: Seq<u8>) -> u8 {
        bytes[0]
    }

    fn size() -> (n: usize) {
        1
    }

    fn ref_from<'de>(bytes: &'de [u8]) -> (r: &'de u8) {
        &bytes[0]
    }

    fn mut_from<'de>(bytes: &'de mut [u8]) -> (r: &'de mut u8) {
        bytes.first_mut().unwrap()
    }
}

} // verus!
