//! Laws that pin the wire format and the configuration down from outside the schemas: each
//! integer is its little-endian bytes, each length prefix is the little-endian integer of the
//! length itself, a size limit is the number it names, and the sizes a derive works with are
//! sums over the fields.
use crate::config::{
    size_limited, Config, Configuration, Limit, NoLimit, SizeLimit,
    DEFAULT_PREALLOCATION_SIZE_LIMIT,
};
use crate::derive_plan::{
    count_contextual, count_unskipped, static_prefix_len_spec, static_sum, FieldPlan,
};
use crate::error::ReadError;
use crate::io::{served, LimitReader, Reader};
use crate::len::{BincodeLen, FixIntLen, SeqLen};
use crate::schema::containers::{
    decode_counted, decode_items, encode_items, items_within_limits, join, lemma_counted_roundtrip,
    lemma_decode_items_local, lemma_encode_items_push, VecOf,
};
use crate::schema::{SchemaRead, SchemaReadContext, SchemaRoundtrip, SchemaWrite, TypeMeta};
use vstd::bytes::{
    lemma_auto_spec_u16_to_from_le_bytes, lemma_auto_spec_u32_to_from_le_bytes,
    lemma_auto_spec_u64_to_from_le_bytes, spec_u16_from_le_bytes, spec_u32_from_le_bytes,
    spec_u64_from_le_bytes, spec_u32_to_le_bytes,
};
use vstd::prelude::*;

verus! {

/// The error of input shorter than the `n` bytes a value needs.
pub open spec fn too_short(n: usize) -> ReadError {
    ReadError::Io(crate::io::ReadError::ReadSizeLimit(n))
}

/// A byte is written as itself and read back from the first byte of the input.
pub proof fn law_u8_wire<'de, C: Config>(v: u8, bytes: Seq<u8>)
    ensures
        <u8 as SchemaWrite<C>>::spec_encode(v) matches Ok(b) && b.len() == 1 && b[0] == v,
        bytes.len() == 0 ==> <u8 as SchemaRead<'de, C>>::spec_decode(bytes) == Err::<
            (u8, nat),
            ReadError,
        >(too_short(1)),
        bytes.len() >= 1 ==> <u8 as SchemaRead<'de, C>>::spec_decode(bytes) == Ok::<
            (u8, nat),
            ReadError,
        >((bytes[0], 1)),
{
}

/// A boolean is written as the byte 1 or 0; reading takes one byte, where 0 is `false`, 1 is
/// `true` and any other byte is an invalid value.
pub proof fn law_bool_wire<'de, C: Config>(v: bool, bytes: Seq<u8>)
    ensures
        <bool as SchemaWrite<C>>::spec_encode(v) matches Ok(b) && b.len() == 1 && b[0] == (if v {
            1u8
        } else {
            0u8
        }),
        bytes.len() == 0 ==> <bool as SchemaRead<'de, C>>::spec_decode(bytes) == Err::<
            (bool, nat),
            ReadError,
        >(too_short(1)),
        bytes.len() >= 1 && bytes[0] == 0 ==> <bool as SchemaRead<'de, C>>::spec_decode(bytes)
            == Ok::<(bool, nat), ReadError>((false, 1)),
        bytes.len() >= 1 && bytes[0] == 1 ==> <bool as SchemaRead<'de, C>>::spec_decode(bytes)
            == Ok::<(bool, nat), ReadError>((true, 1)),
        bytes.len() >= 1 && bytes[0] > 1 ==> <bool as SchemaRead<'de, C>>::spec_decode(bytes)
            == Err::<(bool, nat), ReadError>(ReadError::InvalidValue),
{
}

/// A `u16` is written as its two little-endian bytes and read back from the first two.
pub proof fn law_u16_wire<'de, C: Config>(v: u16, bytes: Seq<u8>)
    ensures
        <u16 as SchemaWrite<C>>::spec_encode(v) matches Ok(b) && b.len() == 2
            && spec_u16_from_le_bytes(b) == v,
        bytes.len() < 2 ==> <u16 as SchemaRead<'de, C>>::spec_decode(bytes) == Err::<
            (u16, nat),
            ReadError,
        >(too_short(2)),
        bytes.len() >= 2 ==> <u16 as SchemaRead<'de, C>>::spec_decode(bytes) == Ok::<
            (u16, nat),
            ReadError,
        >((spec_u16_from_le_bytes(bytes.take(2)), 2)),
{
    lemma_auto_spec_u16_to_from_le_bytes();
}

/// A `u32` is written as its four little-endian bytes and read back from the first four.
pub proof fn law_u32_wire<'de, C: Config>(v: u32, bytes: Seq<u8>)
    ensures
        <u32 as SchemaWrite<C>>::spec_encode(v) matches Ok(b) && b.len() == 4
            && spec_u32_from_le_bytes(b) == v,
        bytes.len() < 4 ==> <u32 as SchemaRead<'de, C>>::spec_decode(bytes) == Err::<
            (u32, nat),
            ReadError,
        >(too_short(4)),
        bytes.len() >= 4 ==> <u32 as SchemaRead<'de, C>>::spec_decode(bytes) == Ok::<
            (u32, nat),
            ReadError,
        >((spec_u32_from_le_bytes(bytes.take(4)), 4)),
{
    lemma_auto_spec_u32_to_from_le_bytes();
}

/// A `u64` is written as its eight little-endian bytes and read back from the first eight.
pub proof fn law_u64_wire<'de, C: Config>(v: u64, bytes: Seq<u8>)
    ensures
        <u64 as SchemaWrite<C>>::spec_encode(v) matches Ok(b) && b.len() == 8
            && spec_u64_from_le_bytes(b) == v,
        bytes.len() < 8 ==> <u64 as SchemaRead<'de, C>>::spec_decode(bytes) == Err::<
            (u64, nat),
            ReadError,
        >(too_short(8)),
        bytes.len() >= 8 ==> <u64 as SchemaRead<'de, C>>::spec_decode(bytes) == Ok::<
            (u64, nat),
            ReadError,
        >((spec_u64_from_le_bytes(bytes.take(8)), 8)),
{
    lemma_auto_spec_u64_to_from_le_bytes();
}

/// The bincode length prefix of `len` is the eight little-endian bytes of `len` itself. Read
/// back, the first eight bytes give the length, or a length encoding overflow when it does
/// not fit in a `usize`.
pub proof fn law_bincode_len_wire(len: usize, bytes: Seq<u8>)
    ensures
        BincodeLen::spec_encode_len(len) matches Ok(b) && b.len() == 8 && spec_u64_from_le_bytes(
            b,
        ) == len,
        bytes.len() < 8 ==> BincodeLen::spec_decode_len(bytes) == Err::<(usize, nat), ReadError>(
            too_short(8),
        ),
        bytes.len() >= 8 && spec_u64_from_le_bytes(bytes.take(8)) <= usize::MAX
            ==> BincodeLen::spec_decode_len(bytes) == Ok::<(usize, nat), ReadError>(
            (spec_u64_from_le_bytes(bytes.take(8)) as usize, 8),
        ),
        bytes.len() >= 8 && spec_u64_from_le_bytes(bytes.take(8)) > usize::MAX
            ==> BincodeLen::spec_decode_len(bytes) == Err::<(usize, nat), ReadError>(
            ReadError::LengthEncodingOverflow("usize::MAX"),
        ),
{
    lemma_auto_spec_u64_to_from_le_bytes();
}

/// The `u32` length prefix of `len` is the four little-endian bytes of `len` itself, or, for a
/// length past `u32::MAX`, no encoding naming that bound. Read back, the first four bytes give
/// the length.
pub proof fn law_u32_len_wire(len: usize, bytes: Seq<u8>)
    ensures
        len <= u32::MAX ==> (FixIntLen::<u32>::spec_encode_len(len) matches Ok(b) && b.len() == 4
            && spec_u32_from_le_bytes(b) == len),
        len > u32::MAX ==> FixIntLen::<u32>::spec_encode_len(len) == Err::<Seq<u8>, &'static str>(
            "u32::MAX",
        ),
        bytes.len() < 4 ==> FixIntLen::<u32>::spec_decode_len(bytes) == Err::<
            (usize, nat),
            ReadError,
        >(too_short(4)),
        bytes.len() >= 4 ==> FixIntLen::<u32>::spec_decode_len(bytes) == Ok::<
            (usize, nat),
            ReadError,
        >((spec_u32_from_le_bytes(bytes.take(4)) as usize, 4)),
{
    lemma_auto_spec_u32_to_from_le_bytes();
    if len <= u32::MAX {
        assert(spec_u32_to_le_bytes(len as u32).len() == 4);
        assert(spec_u32_from_le_bytes(spec_u32_to_le_bytes(len as u32)) == len as u32);
        assert((len as u32) as usize == len);
    }
}

/// A size limit of `N` bytes is the number `N`, whatever `N` is; no limit is none.
pub proof fn law_size_limit_values<const N: usize>()
    ensures
        <Limit<N> as SizeLimit>::spec_limit() == Some(N),
        <NoLimit as SizeLimit>::spec_limit() == None::<usize>,
{
}

/// A configuration carries exactly the settings in its type: the preallocation limit `P`, the
/// deserialization size limit of `D` and the alignment check `A`.
pub proof fn law_configuration_settings<const A: bool, const P: usize, L: SeqLen, D: SizeLimit>()
    ensures
        <Configuration<A, P, L, D> as Config>::spec_preallocation_size_limit() == P,
        <Configuration<A, P, L, D> as Config>::spec_deserialization_size_limit()
            == D::spec_limit(),
        <Configuration<A, P, L, D> as Config>::spec_zero_copy_align_check() == A,
{
}

/// The default preallocation limit is four mebibytes.
pub proof fn law_default_preallocation_limit()
    ensures
        DEFAULT_PREALLOCATION_SIZE_LIMIT == 4 * 1024 * 1024,
{
}

/// What a size limit lets through: with a limit, the first bytes of the input, as many as the
/// limit or the whole input when it is shorter; with none, the whole input.
pub proof fn law_size_limited(bytes: Seq<u8>, limit: Option<usize>)
    ensures
        size_limited(bytes, limit).is_prefix_of(bytes),
        limit matches Some(l) ==> size_limited(bytes, limit).len() == if l < bytes.len() {
            l as nat
        } else {
            bytes.len()
        },
        limit is None ==> size_limited(bytes, limit) == bytes,
{
    if let Some(l) = limit {
        if l < bytes.len() {
            assert(bytes.take(l as int) =~= bytes.subrange(0, l as int));
        } else {
            assert(bytes =~= bytes.subrange(0, bytes.len() as int));
        }
    } else {
        assert(bytes =~= bytes.subrange(0, bytes.len() as int));
    }
}

/// Under a configuration with the size limit `Limit<N>`, a decode never takes more than `N`
/// bytes of input, for every `N`: an input whose value needs more is refused.
pub proof fn law_configured_limit_bounds_decode<
    'de,
    const A: bool,
    const P: usize,
    L: SeqLen,
    const N: usize,
    T: SchemaRead<'de, Configuration<A, P, L, Limit<N>>>,
>(bytes: Seq<u8>)
    ensures
        T::spec_decode(
            size_limited(
                bytes,
                <Configuration<A, P, L, Limit<N>> as Config>::spec_deserialization_size_limit(),
            ),
        ) matches Ok((v, n)) ==> n <= N,
{
    let seen = size_limited(bytes, Some(N));
    law_size_limited(bytes, Some(N));
    T::lemma_decode_local(seen);
}

/// The static size of metas one after another adds up: that of a concatenation is the sum of
/// the two.
pub proof fn law_static_sum_adds(a: Seq<TypeMeta>, b: Seq<TypeMeta>)
    ensures
        static_sum(a + b) == static_sum(a) + static_sum(b),
    decreases b.len(),
{
    if b.len() == 0 {
        assert(a + b =~= a);
    } else {
        assert((a + b).drop_last() =~= a + b.drop_last());
        law_static_sum_adds(a, b.drop_last());
    }
}

/// The static size of one meta is its size, or nothing for a dynamic one; of none, nothing.
pub proof fn law_static_sum_single(m: TypeMeta)
    ensures
        static_sum(Seq::<TypeMeta>::empty()) == 0,
        static_sum(seq![m]) == match m {
            TypeMeta::Static { size, .. } => size as nat,
            TypeMeta::Dynamic => 0nat,
        },
{
    assert(seq![m].drop_last() =~= Seq::<TypeMeta>::empty());
    assert(static_sum(Seq::<TypeMeta>::empty()) == 0);
    assert(seq![m].last() == m);
}

/// Counting the fields that reach the wire adds up over a concatenation.
pub proof fn law_count_unskipped_adds(a: Seq<FieldPlan>, b: Seq<FieldPlan>)
    ensures
        count_unskipped(a + b) == count_unskipped(a) + count_unskipped(b),
    decreases b.len(),
{
    if b.len() == 0 {
        assert(a + b =~= a);
    } else {
        assert((a + b).drop_last() =~= a + b.drop_last());
        law_count_unskipped_adds(a, b.drop_last());
    }
}

/// One field counts once when it reaches the wire and not at all when skipped; no fields
/// count nothing.
pub proof fn law_count_unskipped_single(f: FieldPlan)
    ensures
        count_unskipped(Seq::<FieldPlan>::empty()) == 0,
        count_unskipped(seq![f]) == if f.skip {
            0nat
        } else {
            1nat
        },
{
    assert(seq![f].drop_last() =~= Seq::<FieldPlan>::empty());
    assert(seq![f].last() == f);
}

/// Counting the fields read with the context adds up over a concatenation.
pub proof fn law_count_contextual_adds(a: Seq<FieldPlan>, b: Seq<FieldPlan>)
    ensures
        count_contextual(a + b) == count_contextual(a) + count_contextual(b),
    decreases b.len(),
{
    if b.len() == 0 {
        assert(a + b =~= a);
    } else {
        assert((a + b).drop_last() =~= a + b.drop_last());
        law_count_contextual_adds(a, b.drop_last());
    }
}

/// One field counts once when it reaches the wire and is read with the context; no fields
/// count nothing.
pub proof fn law_count_contextual_single(f: FieldPlan)
    ensures
        count_contextual(Seq::<FieldPlan>::empty()) == 0,
        count_contextual(seq![f]) == if !f.skip && f.context {
            1nat
        } else {
            0nat
        },
{
    assert(seq![f].drop_last() =~= Seq::<FieldPlan>::empty());
    assert(seq![f].last() == f);
}

/// The statically sized prefix of metas is as long as the run of static metas at the front:
/// every meta before it is static, and the one right after it, if any, is dynamic.
pub proof fn law_static_prefix_len(metas: Seq<TypeMeta>)
    ensures
        static_prefix_len_spec(metas) <= metas.len(),
        forall|i: int| 0 <= i < static_prefix_len_spec(metas) ==> #[trigger] metas[i] is Static,
        static_prefix_len_spec(metas) < metas.len() ==> metas[static_prefix_len_spec(
            metas,
        ) as int] is Dynamic,
    decreases metas.len(),
{
    if metas.len() > 0 && metas[0] is Static {
        let rest = metas.drop_first();
        law_static_prefix_len(rest);
        assert forall|i: int| 0 <= i < static_prefix_len_spec(metas) implies #[trigger] metas[i] is Static by {
            if i > 0 {
                assert(metas[i] == rest[i - 1]);
            }
        }
        if static_prefix_len_spec(metas) < metas.len() {
            assert(metas[static_prefix_len_spec(metas) as int] == rest[static_prefix_len_spec(rest) as int]);
        }
    }
}

/// Decoding `n` items one after another gives exactly `n` of them.
pub proof fn law_decode_items_count<'de, C: Config, T: SchemaRead<'de, C>>(bytes: Seq<u8>, n: nat)
    ensures
        decode_items::<'de, C, T>(bytes, n) matches Ok((vs, k)) ==> vs.len() == n,
    decreases n,
{
    if n > 0 {
        if let Ok((v, k)) = T::spec_decode(bytes) {
            law_decode_items_count::<'de, C, T>(bytes.skip(k as int), (n - 1) as nat);
        }
    }
}

/// The items of a sequence are encoded one after another: two runs of items have an encoding
/// exactly when each run has one, and it is the first run's bytes followed by the second's;
/// otherwise the overflow of the first run without an encoding is reported.
pub proof fn law_encode_items_concat<C: Config, T: SchemaWrite<C>>(
    a: Seq<<T::Src as DeepView>::V>,
    b: Seq<<T::Src as DeepView>::V>,
)
    ensures
        encode_items::<C, T>(a) is Ok && encode_items::<C, T>(b) is Ok ==> encode_items::<C, T>(a
            + b) == Ok::<Seq<u8>, &'static str>(
            encode_items::<C, T>(a)->Ok_0 + encode_items::<C, T>(b)->Ok_0,
        ),
        encode_items::<C, T>(a) matches Err(m) ==> encode_items::<C, T>(a + b) == Err::<
            Seq<u8>,
            &'static str,
        >(m),
        encode_items::<C, T>(a) is Ok ==> (encode_items::<C, T>(b) matches Err(m)
            ==> encode_items::<C, T>(a + b) == Err::<Seq<u8>, &'static str>(m)),
{
    lemma_encode_items_concat::<C, T>(a, b);
}

proof fn lemma_encode_items_concat<C: Config, T: SchemaWrite<C>>(
    a: Seq<<T::Src as DeepView>::V>,
    b: Seq<<T::Src as DeepView>::V>,
)
    ensures
        encode_items::<C, T>(a + b) == join(encode_items::<C, T>(a), encode_items::<C, T>(b)),
    decreases b.len(),
{
    if b.len() == 0 {
        assert(a + b =~= a);
        if let Ok(x) = encode_items::<C, T>(a) {
            assert(x + Seq::<u8>::empty() =~= x);
        }
    } else {
        let last = b.last();
        let init = b.drop_last();
        assert(a + b =~= (a + init).push(last));
        assert(b =~= init.push(last));
        lemma_encode_items_push::<C, T>(a + init, last);
        lemma_encode_items_push::<C, T>(init, last);
        lemma_encode_items_concat::<C, T>(a, init);
        match (encode_items::<C, T>(a), encode_items::<C, T>(init), T::spec_encode(last)) {
            (Ok(x), Ok(y), Ok(z)) => {
                assert(x + (y + z) =~= (x + y) + z);
            },
            _ => {},
        }
    }
}

/// One item is encoded as itself; no items as nothing.
pub proof fn law_encode_items_single<C: Config, T: SchemaWrite<C>>(x: <T::Src as DeepView>::V)
    ensures
        encode_items::<C, T>(Seq::empty()) == Ok::<Seq<u8>, &'static str>(Seq::empty()),
        encode_items::<C, T>(seq![x]) == T::spec_encode(x),
{
    lemma_encode_items_push::<C, T>(Seq::empty(), x);
    assert(Seq::<<T::Src as DeepView>::V>::empty().push(x) =~= seq![x]);
    if let Ok(b) = T::spec_encode(x) {
        assert(Seq::<u8>::empty() + b =~= b);
    }
}

/// Under the bincode length encoding a vector is written as the eight little-endian bytes of
/// its length, then its items one after another.
pub proof fn law_vec_bincode_wire<
    const A: bool,
    const P: usize,
    D: SizeLimit,
    T: SchemaWrite<Configuration<A, P, BincodeLen, D>>,
>(v: Seq<<T::Src as DeepView>::V>)
    requires
        v.len() <= usize::MAX,
    ensures
        <Vec<T> as SchemaWrite<Configuration<A, P, BincodeLen, D>>>::spec_encode(v) matches Ok(b)
            ==> {
            &&& b.len() >= 8
            &&& spec_u64_from_le_bytes(b.take(8)) == v.len()
            &&& encode_items::<Configuration<A, P, BincodeLen, D>, T>(v) == Ok::<
                Seq<u8>,
                &'static str,
            >(b.skip(8))
        },
        encode_items::<Configuration<A, P, BincodeLen, D>, T>(v) is Ok
            ==> <Vec<T> as SchemaWrite<Configuration<A, P, BincodeLen, D>>>::spec_encode(v) is Ok,
{
    law_bincode_len_wire(v.len() as usize, Seq::empty());
    if let Ok(b) = <Vec<T> as SchemaWrite<Configuration<A, P, BincodeLen, D>>>::spec_encode(v) {
        let lb = BincodeLen::spec_encode_len(v.len() as usize)->Ok_0;
        let ib = encode_items::<Configuration<A, P, BincodeLen, D>, T>(v)->Ok_0;
        assert(b == lb + ib);
        assert(b.take(8) =~= lb);
        assert(b.skip(8) =~= ib);
    }
}

/// A vector is written as its length in the configuration's length encoding, then its items
/// one after another; when the length does not fit its carrier, or an item has no encoding,
/// the first such overflow is reported.
pub proof fn law_vec_wire<C: Config, T: SchemaWrite<C>>(v: Seq<<T::Src as DeepView>::V>)
    requires
        v.len() <= usize::MAX,
    ensures
        C::LengthEncoding::spec_encode_len(v.len() as usize) is Ok && encode_items::<C, T>(v) is Ok
            ==> <Vec<T> as SchemaWrite<C>>::spec_encode(v) == Ok::<Seq<u8>, &'static str>(
            C::LengthEncoding::spec_encode_len(v.len() as usize)->Ok_0 + encode_items::<C, T>(
                v,
            )->Ok_0,
        ),
        C::LengthEncoding::spec_encode_len(v.len() as usize) matches Err(m) ==> <Vec<
            T,
        > as SchemaWrite<C>>::spec_encode(v) == Err::<Seq<u8>, &'static str>(m),
        C::LengthEncoding::spec_encode_len(v.len() as usize) is Ok ==> (encode_items::<C, T>(
            v,
        ) matches Err(m) ==> <Vec<T> as SchemaWrite<C>>::spec_encode(v) == Err::<
            Seq<u8>,
            &'static str,
        >(m)),
{
}

/// A vector with a chosen length encoding `L` is written as its length in `L`, then its items
/// one after another, whatever the configuration's own length encoding.
pub proof fn law_vec_of_wire<C: Config, T: SchemaWrite<C>, L: SeqLen>(
    v: Seq<<T::Src as DeepView>::V>,
)
    requires
        v.len() <= usize::MAX,
    ensures
        L::spec_encode_len(v.len() as usize) is Ok && encode_items::<C, T>(v) is Ok
            ==> <VecOf<T, L> as SchemaWrite<C>>::spec_encode(v) == Ok::<Seq<u8>, &'static str>(
            L::spec_encode_len(v.len() as usize)->Ok_0 + encode_items::<C, T>(v)->Ok_0,
        ),
        L::spec_encode_len(v.len() as usize) matches Err(m) ==> <VecOf<T, L> as SchemaWrite<
            C,
        >>::spec_encode(v) == Err::<Seq<u8>, &'static str>(m),
        L::spec_encode_len(v.len() as usize) is Ok ==> (encode_items::<C, T>(v) matches Err(m)
            ==> <VecOf<T, L> as SchemaWrite<C>>::spec_encode(v) == Err::<Seq<u8>, &'static str>(m)),
{
}

/// Reading `a + b` items one after another is reading `a` of them, then `b` more from where
/// the first `a` ended; a failure in either is the failure of the whole.
pub proof fn law_decode_items_split<'de, C: Config, T: SchemaRead<'de, C>>(
    bytes: Seq<u8>,
    a: nat,
    b: nat,
)
    ensures
        decode_items::<'de, C, T>(bytes, a + b) == match decode_items::<'de, C, T>(bytes, a) {
            Err(e) => Err(e),
            Ok((xs, k)) => match decode_items::<'de, C, T>(bytes.skip(k as int), b) {
                Err(e) => Err(e),
                Ok((ys, m)) => Ok((xs + ys, k + m)),
            },
        },
    decreases a,
{
    if a == 0 {
        assert(bytes.skip(0) =~= bytes);
        if let Ok((ys, m)) = decode_items::<'de, C, T>(bytes, b) {
            assert(Seq::<<T::Dst as DeepView>::V>::empty() + ys =~= ys);
        }
    } else {
        if let Ok((v, k)) = T::spec_decode(bytes) {
            T::lemma_decode_local(bytes);
            let rest = bytes.skip(k as int);
            lemma_decode_items_local::<'de, C, T>(rest, (a - 1) as nat);
            law_decode_items_split::<'de, C, T>(rest, (a - 1) as nat, b);
            assert((a + b - 1) as nat == ((a - 1) as nat + b) as nat);
            if let Ok((xs, j)) = decode_items::<'de, C, T>(rest, (a - 1) as nat) {
                assert(rest.skip(j as int) =~= bytes.skip((k + j) as int));
                if let Ok((ys, m)) = decode_items::<'de, C, T>(rest.skip(j as int), b) {
                    assert(seq![v] + (xs + ys) =~= (seq![v] + xs) + ys);
                }
            }
        }
    }
}

/// Reading one item is reading it with its own schema; reading none takes nothing.
pub proof fn law_decode_items_single<'de, C: Config, T: SchemaRead<'de, C>>(bytes: Seq<u8>)
    ensures
        decode_items::<'de, C, T>(bytes, 0) == Ok::<_, ReadError>(
            (Seq::<<T::Dst as DeepView>::V>::empty(), 0nat),
        ),
        decode_items::<'de, C, T>(bytes, 1) == match T::spec_decode(bytes) {
            Err(e) => Err(e),
            Ok((v, k)) => Ok((seq![v], k)),
        },
{
    if let Ok((v, k)) = T::spec_decode(bytes) {
        assert(decode_items::<'de, C, T>(bytes.skip(k as int), 0) == Ok::<_, ReadError>(
            (Seq::<<T::Dst as DeepView>::V>::empty(), 0nat),
        ));
        assert(seq![v] + Seq::<<T::Dst as DeepView>::V>::empty() =~= seq![v]);
    }
}

/// A vector read back has as many items as its length prefix says.
pub proof fn law_vec_decode_count<'de, C: Config, T: SchemaRead<'de, C>>(bytes: Seq<u8>)
    ensures
        <Vec<T> as SchemaRead<'de, C>>::spec_decode(bytes) matches Ok((vs, n))
            ==> C::LengthEncoding::spec_decode_len(bytes) matches Ok((len, k)) && vs.len() == len,
{
    if let Ok((len, k)) = C::LengthEncoding::spec_decode_len(bytes) {
        law_decode_counted_count::<'de, C, T>(bytes.skip(k as int), len);
    }
}

/// Reading a known number of items gives exactly that many.
pub proof fn law_decode_counted_count<'de, C: Config, T: SchemaRead<'de, C>>(
    bytes: Seq<u8>,
    len: usize,
)
    ensures
        decode_counted::<'de, C, T>(bytes, len) matches Ok((vs, n)) ==> vs.len() == len,
{
    law_decode_items_count::<'de, C, T>(bytes, len as nat);
    if let TypeMeta::Static { size, .. } = T::spec_type_meta() {
        law_decode_items_count::<'de, C, T>(bytes.take((len as nat * size as nat) as int), len as nat);
    }
}

/// A vector read with a context takes the context as its item count: what it gives back has
/// exactly that many items, whatever their size.
pub proof fn law_context_is_item_count<'de, C: Config, T: SchemaRead<'de, C>>(
    ctx: usize,
    bytes: Seq<u8>,
)
    ensures
        <Vec<T> as SchemaReadContext<'de, C, usize>>::spec_decode_with(ctx, bytes) matches Ok(
            (vs, n),
        ) ==> vs.len() == ctx,
{
    law_decode_counted_count::<'de, C, T>(bytes, ctx);
}

/// Reading `ctx` items with the context `ctx` gives back items that were written one after
/// another, when they are within the limits: the context is the item count, not a byte count.
pub proof fn law_context_roundtrip<'de, C: Config, T: SchemaRoundtrip<'de, C>>(
    items: Seq<<<T as SchemaWrite<C>>::Src as DeepView>::V>,
    extra: Seq<u8>,
)
    requires
        items_within_limits::<'de, C, T>(items),
        items.len() <= usize::MAX,
    ensures
        encode_items::<C, T>(items) matches Ok(ib) ==> <Vec<T> as SchemaReadContext<
            'de,
            C,
            usize,
        >>::spec_decode_with(items.len() as usize, ib + extra) == Ok::<_, ReadError>(
            (items, ib.len()),
        ),
{
    lemma_counted_roundtrip::<'de, C, T>(items, extra);
}

/// A vector whose length asks for more memory than the preallocation limit allows is refused
/// before any item is read, with what it needed and the limit.
pub proof fn law_vec_preallocation_guard<'de, C: Config, T: SchemaRead<'de, C>>(bytes: Seq<u8>)
    ensures
        C::LengthEncoding::spec_decode_len(bytes) matches Ok((len, k)) && len
            * vstd::layout::size_of::<T::Dst>() <= usize::MAX && len * vstd::layout::size_of::<
            T::Dst,
        >() > C::spec_preallocation_size_limit() ==> <Vec<T> as SchemaRead<'de, C>>::spec_decode(
            bytes,
        ) == Err::<(Seq<<T::Dst as DeepView>::V>, nat), ReadError>(
            ReadError::PreallocationSizeLimit {
                needed: (C::LengthEncoding::spec_decode_len(bytes)->Ok_0.0 * vstd::layout::size_of::<
                    T::Dst,
                >()) as usize,
                limit: C::spec_preallocation_size_limit(),
            },
        ),
{
}

/// A request for `n` bytes is served by handing out exactly `n` bytes that, followed by what
/// is left, are what was readable before.
pub proof fn law_request_served(before: Seq<u8>, after: Seq<u8>, n: nat, out: Seq<u8>)
    ensures
        served(before, after, n, out) <==> (out.len() == n && out + after == before),
{
    if out.len() == n && out + after == before {
        assert(out =~= before.take(n as int));
        assert(after =~= before.skip(n as int));
    }
    if served(before, after, n, out) {
        assert(out + after =~= before);
    }
}

/// A limited reader yields what its inner reader would, cut off after as many bytes as remain
/// of its limit.
pub proof fn law_limit_reader_readable<'de, R: Reader<'de>>(reader: LimitReader<R>)
    ensures
        reader.readable().is_prefix_of(reader.inner_reader().readable()),
        reader.readable().len() == if reader.remaining_limit() < reader.inner_reader().readable().len() {
            reader.remaining_limit() as nat
        } else {
            reader.inner_reader().readable().len()
        },
{
    law_size_limited(reader.inner_reader().readable(), Some(reader.remaining_limit()));
}

} // verus!
