//! Configurations: the length encoding, the preallocation limit and the deserialization
//! size limit, chosen at the type level.
use crate::len::{BincodeLen, SeqLen};
use vstd::prelude::*;

pub mod decode;
pub mod encode;
mod serde;

pub use serde::{
    deserialize, deserialize_exact, deserialize_from, deserialize_mut, deserialize_with_context,
    serialize, serialize_into, serialized_size, size_limited, Deserialize, DeserializeOwned,
    SchemaReadOwned, Serialize, ZeroCopy,
};

verus! {

/// The default limit, in bytes, on what one decoded length may preallocate.
pub const DEFAULT_PREALLOCATION_SIZE_LIMIT: usize = 4194304;

/// A choice of deserialization size limit.
pub trait SizeLimit {
    spec fn spec_limit() -> Option<usize>;

    fn limit() -> (r: Option<usize>)
        ensures
            r == Self::spec_limit(),
    ;
}

/// No limit on how many bytes a deserialization may read.
#[derive(Clone, Copy)]
pub struct NoLimit;

/// A deserialization may read at most `N` bytes.
#[derive(Clone, Copy)]
pub struct Limit<const N: usize>;

impl SizeLimit for NoLimit {
    open spec fn spec_limit() -> Option<usize> {
        None
    }

    fn limit() -> (r: Option<usize>) {
        None
    }
}

impl<const N: usize> SizeLimit for Limit<N> {
    open spec fn spec_limit() -> Option<usize> {
        Some(N)
    }

    fn limit() -> (r: Option<usize>) {
        Some(N)
    }
}

/// The settings that shape the wire format and the checks made while decoding.
pub trait Config: Copy {
    /// How sequence lengths are written.
    type LengthEncoding: SeqLen;

    spec fn spec_preallocation_size_limit() -> usize;

    spec fn spec_deserialization_size_limit() -> Option<usize>;

    spec fn spec_zero_copy_align_check() -> bool;

    /// The most bytes that one decoded length may ask to preallocate.
    fn preallocation_size_limit() -> (r: usize)
        ensures
            r == Self::spec_preallocation_size_limit(),
    ;

    /// The most bytes that a whole deserialization may read, if limited.
    fn deserialization_size_limit() -> (r: Option<usize>)
        ensures
            r == Self::spec_deserialization_size_limit(),
    ;

    /// Whether zero-copy reads of types aligned above one byte check alignment.
    fn zero_copy_align_check() -> (r: bool)
        ensures
            r == Self::spec_zero_copy_align_check(),
    ;
}

/// A configuration: `ZERO_COPY_ALIGN_CHECK`, the preallocation limit, the length encoding
/// `L` and the deserialization size limit `D`.
pub struct Configuration<
    const ZERO_COPY_ALIGN_CHECK: bool,
    const PREALLOCATION_SIZE_LIMIT: usize,
    L = BincodeLen,
    D = NoLimit,
> {
    /// A configuration carries no data: everything is in its type.
    pub marker: core::marker::PhantomData<(L, D)>,
}

/// The configuration used where none is given: bincode lengths, the default preallocation
/// limit and no deserialization size limit.
pub type DefaultConfig = Configuration<true, DEFAULT_PREALLOCATION_SIZE_LIMIT, BincodeLen, NoLimit>;

impl<const A: bool, const P: usize, L, D> Clone for Configuration<A, P, L, D> {
    fn clone(&self) -> (r: Self)
        ensures
            r == *self,
    {
        *self
    }
}

impl<const A: bool, const P: usize, L, D> Copy for Configuration<A, P, L, D> {

}

impl<const A: bool, const P: usize, L: SeqLen, D: SizeLimit> Config for Configuration<A, P, L, D> {
    type LengthEncoding = L;

    open spec fn spec_preallocation_size_limit() -> usize {
        P
    }

    open spec fn spec_deserialization_size_limit() -> Option<usize> {
        D::spec_limit()
    }

    open spec fn spec_zero_copy_align_check() -> bool {
        A
    }

    fn preallocation_size_limit() -> (r: usize) {
        P
    }

    fn deserialization_size_limit() -> (r: Option<usize>) {
        D::limit()
    }

    fn zero_copy_align_check() -> (r: bool) {
        A
    }
}

impl Default for DefaultConfig {
    fn default() -> (r: Self)
        ensures
            r == (Configuration::<true, DEFAULT_PREALLOCATION_SIZE_LIMIT, BincodeLen, NoLimit> {
                marker: core::marker::PhantomData,
            }),
    {
        Configuration { marker: core::marker::PhantomData }
    }
}

impl<const A: bool, const P: usize, L, D> Configuration<A, P, L, D> {
    /// The same configuration, reading at most `N` bytes per deserialization. A
    /// configuration holds no data, so the result is the one value of its type; what changes
    /// is the type, whose `spec_deserialization_size_limit` is `Some(N)`.
    pub fn with_deserialization_size_limit<const N: usize>(self) -> (r: Configuration<
        A,
        P,
        L,
        Limit<N>,
    >)
        ensures
            r == (Configuration::<A, P, L, Limit<N>> { marker: core::marker::PhantomData }),
    {
        Configuration { marker: core::marker::PhantomData }
    }

    /// The same configuration, with no deserialization size limit: the one value of a type
    /// whose `spec_deserialization_size_limit` is `None`.
    pub fn disable_deserialization_size_limit(self) -> (r: Configuration<A, P, L, NoLimit>)
        ensures
            r == (Configuration::<A, P, L, NoLimit> { marker: core::marker::PhantomData }),
    {
        Configuration { marker: core::marker::PhantomData }
    }

    /// The same configuration, writing lengths with `L2`: the one value of a type whose
    /// `LengthEncoding` is `L2`.
    pub fn with_length_encoding<L2>(self) -> (r: Configuration<A, P, L2, D>)
        ensures
            r == (Configuration::<A, P, L2, D> { marker: core::marker::PhantomData }),
    {
        Configuration { marker: core::marker::PhantomData }
    }

    /// The same configuration, with preallocation limit `N`: the one value of a type whose
    /// `spec_preallocation_size_limit` is `N`.
    pub fn with_preallocation_size_limit<const N: usize>(self) -> (r: Configuration<A, N, L, D>)
        ensures
            r == (Configuration::<A, N, L, D> { marker: core::marker::PhantomData }),
    {
        Configuration { marker: core::marker::PhantomData }
    }
}

} // verus!
