//! Decode functions using [`DefaultConfig`](crate::config::DefaultConfig).
//!
//! Two families: `decode` / `decode_into` / `decode_exact`, where `T` is both schema and
//! destination; and `decode_via` / `decode_into_via` / `decode_exact_via`, where the schema
//! `S` and its destination `S::Dst` may differ.
use crate::config::{self, DefaultConfig};
use crate::error::ReadResult;
use crate::io::Reader;
use crate::schema::{decode_result, exact_result, SchemaRead};
use vstd::prelude::*;

verus! {

/// Decode a value of type `T` from `reader`.
pub fn decode<'de, T>(reader: impl Reader<'de>) -> (r: ReadResult<T>) where
    T: SchemaRead<'de, DefaultConfig, Dst = T> + DeepView,

    ensures
        decode_result::<T>(<T as SchemaRead<'de, DefaultConfig>>::spec_decode(reader.readable()), r),
{
    config::decode::decode::<T, DefaultConfig>(reader)
}

/// Decode into `dst` from `reader`; on failure `dst` is left as it was.
pub fn decode_into<'de, T>(reader: impl Reader<'de>, dst: &mut T) -> (r: ReadResult<()>) where
    T: SchemaRead<'de, DefaultConfig, Dst = T> + DeepView,

    ensures
        decode_result::<T>(
            <T as SchemaRead<'de, DefaultConfig>>::spec_decode(reader.readable()),
            match r {
                Ok(_) => Ok(*final(dst)),
                Err(e) => Err(e),
            },
        ),
        r is Err ==> *final(dst) == *old(dst),
{
    config::decode::decode_into::<T, DefaultConfig>(reader, dst)
}

/// Decode a value from all of `src`, failing with trailing bytes when the value does not
/// take all of it.
pub fn decode_exact<'de, T>(src: &'de [u8]) -> (r: ReadResult<T>) where
    T: SchemaRead<'de, DefaultConfig, Dst = T> + DeepView,

    ensures
        exact_result::<T>(<T as SchemaRead<'de, DefaultConfig>>::spec_decode(src@), src@.len(), r),
{
    config::decode::decode_exact::<T, DefaultConfig>(src)
}

/// Decode from `reader` using schema `S`, returning `S::Dst`.
pub fn decode_via<'de, S>(reader: impl Reader<'de>) -> (r: ReadResult<S::Dst>) where
    S: SchemaRead<'de, DefaultConfig>,

    ensures
        decode_result::<S::Dst>(S::spec_decode(reader.readable()), r),
{
    config::decode::decode_via::<S, DefaultConfig>(reader)
}

/// Decode into `dst` from `reader` using schema `S`; on failure `dst` is left as it was.
pub fn decode_into_via<'de, S>(reader: impl Reader<'de>, dst: &mut S::Dst) -> (r: ReadResult<
    (),
>) where S: SchemaRead<'de, DefaultConfig>,

    ensures
        decode_result::<S::Dst>(
            S::spec_decode(reader.readable()),
            match r {
                Ok(_) => Ok(*final(dst)),
                Err(e) => Err(e),
            },
        ),
        r is Err ==> *final(dst) == *old(dst),
{
    config::decode::decode_into_via::<S, DefaultConfig>(reader, dst)
}

/// Decode from all of `src` using schema `S`, failing with trailing bytes when the value
/// does not take all of it.
pub fn decode_exact_via<'de, S>(src: &'de [u8]) -> (r: ReadResult<S::Dst>) where
    S: SchemaRead<'de, DefaultConfig>,

    ensures
        exact_result::<S::Dst>(S::spec_decode(src@), src@.len(), r),
{
    config::decode::decode_exact_via::<S, DefaultConfig>(src)
}

} // verus!
