//! Encode functions with the configuration `C` given as a type parameter.
//!
//! Two families: `encode` / `encode_into` / `encoded_size`, where `T` is both schema and
//! source; and `encode_via` / `encode_into_via` / `encoded_size_via`, where the schema `S`
//! and its source `S::Src` may differ.
use crate::config::Config;
use crate::error::{self, WriteResult};
use crate::io::Writer;
use crate::schema::{encode_result, encode_to_vec, finished_outcome, size_outcome, SchemaWrite};
use vstd::prelude::*;

verus! {

/// Encode `src` into a new vector using configuration `C`.
pub fn encode<T, C: Config>(src: &T) -> (r: WriteResult<Vec<u8>>) where
    T: SchemaWrite<C, Src = T> + DeepView,

    ensures
        encode_result(<T as SchemaWrite<C>>::spec_encode(src.deep_view()), r),
{
    encode_to_vec::<C, T>(src)
}

/// Encode `src` into `writer` using configuration `C`, then finish the writer.
pub fn encode_into<T, C: Config, W: Writer>(writer: &mut W, src: &T) -> (r: WriteResult<()>) where
    T: SchemaWrite<C, Src = T> + DeepView,

    ensures
        finished_outcome(
            *old(writer),
            *final(writer),
            <T as SchemaWrite<C>>::spec_encode(src.deep_view()),
            r,
        ),
{
    T::write(writer, src)?;
    error::from_io_write(writer.finish())
}

/// The number of bytes `src` encodes to with configuration `C`.
pub fn encoded_size<T, C: Config>(src: &T) -> (r: WriteResult<usize>) where
    T: SchemaWrite<C, Src = T> + DeepView,

    ensures
        r == size_outcome(<T as SchemaWrite<C>>::spec_encode(src.deep_view())),
{
    T::size_of(src)
}

/// Encode `src` into a new vector using schema `S` and configuration `C`.
pub fn encode_via<S, C: Config>(src: &S::Src) -> (r: WriteResult<Vec<u8>>) where
    S: SchemaWrite<C>,

    ensures
        encode_result(S::spec_encode(src.deep_view()), r),
{
    encode_to_vec::<C, S>(src)
}

/// Encode `src` into `writer` using schema `S` and configuration `C`, then finish the
/// writer.
pub fn encode_into_via<S, C: Config, W: Writer>(writer: &mut W, src: &S::Src) -> (r: WriteResult<
    (),
>) where S: SchemaWrite<C>,

    ensures
        finished_outcome(*old(writer), *final(writer), S::spec_encode(src.deep_view()), r),
{
    S::write(writer, src)?;
    error::from_io_write(writer.finish())
}

/// The number of bytes `src` encodes to with schema `S` and configuration `C`.
pub fn encoded_size_via<S, C: Config>(src: &S::Src) -> (r: WriteResult<usize>) where
    S: SchemaWrite<C>,

    ensures
        r == size_outcome(S::spec_encode(src.deep_view())),
{
    S::size_of(src)
}

} // verus!
