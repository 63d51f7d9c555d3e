//! Decode functions with the configuration `C` given as a type parameter.
//!
//! Two families: `decode` / `decode_into` / `decode_exact`, where `T` is both schema and
//! destination; and `decode_via` / `decode_into_via` / `decode_exact_via`, where the schema
//! `S` and its destination `S::Dst` may differ.
use crate::config::Config;
use crate::error::{self, ReadResult};
use crate::io::Reader;
use crate::schema::{decode_result, exact_result, read_outcome, SchemaRead};
use vstd::prelude::*;

verus! {

/// Decode a value of type `T` from `reader` using configuration `C`.
pub fn decode<'de, T, C: Config>(reader: impl Reader<'de>) -> (r: ReadResult<T>) where
    T: SchemaRead<'de, C, Dst = T> + DeepView,

    ensures
        decode_result::<T>(<T as SchemaRead<'de, C>>::spec_decode(reader.readable()), r),
{
    let mut reader = reader;
    T::get(&mut reader)
}

/// Decode into `dst` from `reader` using configuration `C`; on failure `dst` is left as
/// it was.
pub fn decode_into<'de, T, C: Config>(reader: impl Reader<'de>, dst: &mut T) -> (r: ReadResult<
    (),
>) where T: SchemaRead<'de, C, Dst = T> + DeepView,

    ensures
        decode_result::<T>(
            <T as SchemaRead<'de, C>>::spec_decode(reader.readable()),
            match r {
                Ok(_) => Ok(*final(dst)),
                Err(e) => Err(e),
            },
        ),
        r is Err ==> *final(dst) == *old(dst),
{
    let mut reader = reader;
    let value = T::get(&mut reader)?;
    *dst = value;
    Ok(())
}

/// Decode a value from all of `src` using configuration `C`, failing with trailing bytes
/// when the value does not take all of it.
pub fn decode_exact<'de, T, C: Config>(src: &'de [u8]) -> (r: ReadResult<T>) where
    T: SchemaRead<'de, C, Dst = T> + DeepView,

    ensures
        exact_result::<T>(<T as SchemaRead<'de, C>>::spec_decode(src@), src@.len(), r),
{
    let mut rest = src;
    let value = T::get(&mut rest)?;
    if rest.len() == 0 {
        Ok(value)
    } else {
        Err(error::trailing_bytes())
    }
}

/// Decode from `reader` using schema `S` and configuration `C`, returning `S::Dst`.
pub fn decode_via<'de, S, C: Config>(reader: impl Reader<'de>) -> (r: ReadResult<S::Dst>) where
    S: SchemaRead<'de, C>,

    ensures
        decode_result::<S::Dst>(S::spec_decode(reader.readable()), r),
{
    let mut reader = reader;
    S::get(&mut reader)
}

/// Decode into `dst` from `reader` using schema `S` and configuration `C`; on failure
/// `dst` is left as it was.
pub fn decode_into_via<'de, S, C: Config>(reader: impl Reader<'de>, dst: &mut S::Dst) -> (r:
    ReadResult<()>) where S: SchemaRead<'de, C>,

    ensures
        decode_result::<S::Dst>(
            S::spec_decode(reader.readable()),
            match r {
                Ok(_) => Ok(*final(dst)),
                Err(e) => Err(e),
            },
        ),
        r is Err ==> *final(dst) == *old(dst),
{
    let mut reader = reader;
    let value = S::get(&mut reader)?;
    *dst = value;
    Ok(())
}

/// Decode from all of `src` using schema `S` and configuration `C`, failing with trailing
/// bytes when the value does not take all of it.
pub fn decode_exact_via<'de, S, C: Config>(src: &'de [u8]) -> (r: ReadResult<S::Dst>) where
    S: SchemaRead<'de, C>,

    ensures
        exact_result::<S::Dst>(S::spec_decode(src@), src@.len(), r),
{
    let mut rest = src;
    let value = S::get(&mut rest)?;
    if rest.len() == 0 {
        Ok(value)
    } else {
        Err(error::trailing_bytes())
    }
}

} // verus!
