//! Encode functions using [`DefaultConfig`](crate::config::DefaultConfig).
//!
//! Two families: `encode` / `encode_into` / `encoded_size`, where `T` is both schema and
//! source; and `encode_via` / `encode_into_via` / `encoded_size_via`, where the schema `S`
//! and its source `S::Src` may differ.
use crate::config::{self, DefaultConfig};
use crate::error::WriteResult;
use crate::io::Writer;
use crate::schema::{encode_result, finished_outcome, size_outcome, SchemaWrite};
use vstd::prelude::*;

verus! {

/// Encode `src` into a new vector.
pub fn encode<T>(src: &T) -> (r: WriteResult<Vec<u8>>) where
    T: SchemaWrite<DefaultConfig, Src = T> + DeepView,

    ensures
        encode_result(<T as SchemaWrite<DefaultConfig>>::spec_encode(src.deep_view()), r),
{
    config::encode::encode::<T, DefaultConfig>(src)
}

/// Encode `src` into `writer`, then finish the writer.
pub fn encode_into<T, W: Writer>(writer: &mut W, src: &T) -> (r: WriteResult<()>) where
    T: SchemaWrite<DefaultConfig, Src = T> + DeepView,

    ensures
        finished_outcome(
            *old(writer),
            *final(writer),
            <T as SchemaWrite<DefaultConfig>>::spec_encode(src.deep_view()),
            r,
        ),
{
    config::encode::encode_into::<T, DefaultConfig, W>(writer, src)
}

/// The number of bytes `src` encodes to.
pub fn encoded_size<T>(src: &T) -> (r: WriteResult<usize>) where
    T: SchemaWrite<DefaultConfig, Src = T> + DeepView,

    ensures
        r == size_outcome(<T as SchemaWrite<DefaultConfig>>::spec_encode(src.deep_view())),
{
    config::encode::encoded_size::<T, DefaultConfig>(src)
}

/// Encode `src` into a new vector using schema `S`.
pub fn encode_via<S>(src: &S::Src) -> (r: WriteResult<Vec<u8>>) where
    S: SchemaWrite<DefaultConfig>,

    ensures
        encode_result(S::spec_encode(src.deep_view()), r),
{
    config::encode::encode_via::<S, DefaultConfig>(src)
}

/// Encode `src` into `writer` using schema `S`, then finish the writer.
pub fn encode_into_via<S, W: Writer>(writer: &mut W, src: &S::Src) -> (r: WriteResult<()>) where
    S: SchemaWrite<DefaultConfig>,

    ensures
        finished_outcome(*old(writer), *final(writer), S::spec_encode(src.deep_view()), r),
{
    config::encode::encode_into_via::<S, DefaultConfig, W>(writer, src)
}

/// The number of bytes `src` encodes to with schema `S`.
pub fn encoded_size_via<S>(src: &S::Src) -> (r: WriteResult<usize>) where
    S: SchemaWrite<DefaultConfig>,

    ensures
        r == size_outcome(S::spec_encode(src.deep_view())),
{
    config::encode::encoded_size_via::<S, DefaultConfig>(src)
}

} // verus!
