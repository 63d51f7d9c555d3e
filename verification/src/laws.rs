//! Laws of the library: what holds across its functions for all inputs.
use crate::config::{size_limited, Config, Configuration, SizeLimit};
use crate::error::ReadError;
use crate::io::limit_reader::{limited, reservation};
use crate::io::{LimitReader, Reader, Writer};
use crate::len::SeqLen;
use crate::schema::containers::{decode_items, encode_seq, lemma_encode_items_static};
use crate::schema::{
    exact_result, size_outcome, write_outcome, SchemaRead, SchemaRoundtrip, SchemaWrite, TypeMeta,
};
use vstd::prelude::*;

verus! {

/// Reading gives back what writing wrote: the encoding of a value within the decoding
/// limits, followed by any bytes, decodes to that value and takes exactly its encoding.
pub proof fn law_roundtrip<'de, C: Config, T: SchemaRoundtrip<'de, C>>(
    v: <<T as SchemaWrite<C>>::Src as DeepView>::V,
    extra: Seq<u8>,
)
    requires
        T::spec_within_limits(v),
    ensures
        <T as SchemaWrite<C>>::spec_encode(v) matches Ok(b) ==> <T as SchemaRead<
            'de,
            C,
        >>::spec_decode(b + extra) == Ok::<_, ReadError>((v, b.len())),
{
    T::lemma_roundtrip(v, extra);
}

/// An exact decode of an encoding gives the value back; with any bytes after it, it fails
/// with trailing bytes.
pub proof fn law_exact_roundtrip<'de, C: Config, T: SchemaRoundtrip<'de, C>>(
    v: <<T as SchemaWrite<C>>::Src as DeepView>::V,
    extra: Seq<u8>,
    x: <T as SchemaWrite<C>>::Src,
)
    requires
        T::spec_within_limits(v),
        x.deep_view() == v,
    ensures
        <T as SchemaWrite<C>>::spec_encode(v) matches Ok(b) ==> {
            &&& exact_result::<<T as SchemaWrite<C>>::Src>(
                <T as SchemaRead<'de, C>>::spec_decode(b),
                b.len(),
                Ok(x),
            )
            &&& extra.len() > 0 ==> exact_result::<<T as SchemaWrite<C>>::Src>(
                <T as SchemaRead<'de, C>>::spec_decode(b + extra),
                (b + extra).len(),
                Err(ReadError::TrailingBytes),
            )
        },
{
    T::lemma_roundtrip(v, extra);
    T::lemma_roundtrip(v, Seq::empty());
    if let Ok(b) = <T as SchemaWrite<C>>::spec_encode(v) {
        assert(b + Seq::<u8>::empty() =~= b);
    }
}

/// The size a value reports is the length of its encoding.
pub proof fn law_size_is_encoding_length<C: Config, T: SchemaWrite<C>>(
    v: <T::Src as DeepView>::V,
)
    ensures
        size_outcome(T::spec_encode(v)) matches Ok(n) ==> T::spec_encode(v) matches Ok(b)
            && b.len() == n,
        T::spec_encode(v) is Ok && T::spec_encode(v).unwrap().len() <= usize::MAX
            ==> size_outcome(T::spec_encode(v)) == Ok::<usize, crate::error::WriteError>(
            T::spec_encode(v).unwrap().len() as usize,
        ),
{
}

/// Checking the size first is enough: when the size of a value is at most the room left in a
/// writer, writing it succeeds and appends exactly its encoding.
pub proof fn law_size_check_suffices<C: Config, T: SchemaWrite<C>, W: Writer>(
    v: <T::Src as DeepView>::V,
    before: W,
    after: W,
    r: crate::error::WriteResult<()>,
)
    requires
        size_outcome(T::spec_encode(v)) matches Ok(n) && n <= before.free(),
        write_outcome(before, after, T::spec_encode(v), r),
    ensures
        r is Ok,
        after.written() =~= before.written() + T::spec_encode(v).unwrap(),
{
}

/// A deserialization size limit at least as large as what a decode takes does not change
/// its result.
pub proof fn law_limit_not_reached<'de, C: Config, T: SchemaRead<'de, C>>(
    bytes: Seq<u8>,
    limit: usize,
)
    requires
        T::spec_decode(bytes) matches Ok((v, n)) && n <= limit,
    ensures
        T::spec_decode(size_limited(bytes, Some(limit))) == T::spec_decode(bytes),
{
    T::lemma_decode_local(bytes);
    let n = T::spec_decode(bytes)->Ok_0.1;
    if limit < bytes.len() {
        let t = bytes.take(limit as int);
        T::lemma_decode_prefix(bytes.take(n as int), t.skip(n as int));
        assert(bytes.take(n as int) + t.skip(n as int) =~= t);
    }
}

/// Whether deserialization size limit `lower` is at most `higher`, where none stands for no
/// limit at all.
pub open spec fn limit_at_most(lower: Option<usize>, higher: Option<usize>) -> bool {
    match (lower, higher) {
        (_, None) => true,
        (None, Some(_)) => false,
        (Some(a), Some(b)) => a <= b,
    }
}

/// Raising or removing the deserialization size limit never changes a successful decode:
/// what decodes under a limit decodes to the same value, taking the same bytes, under any
/// larger limit and under none.
pub proof fn law_limit_monotone<'de, C: Config, T: SchemaRead<'de, C>>(
    bytes: Seq<u8>,
    lower: Option<usize>,
    higher: Option<usize>,
)
    requires
        limit_at_most(lower, higher),
        T::spec_decode(size_limited(bytes, lower)) is Ok,
    ensures
        T::spec_decode(size_limited(bytes, higher)) == T::spec_decode(size_limited(bytes, lower)),
{
    let seen = size_limited(bytes, lower);
    let more = size_limited(bytes, higher);
    assert(seen.is_prefix_of(more));
    T::lemma_decode_prefix(seen, more.skip(seen.len() as int));
    assert(seen + more.skip(seen.len() as int) =~= more);
}

/// Whether schema `T` reads alike under configurations `C1` and `C2`: the same knowledge of
/// its size, and the same decoding of every byte string.
pub open spec fn reads_alike<'de, C1: Config, C2: Config, X: DeepView, T>() -> bool where
    T: SchemaRead<'de, C1, Dst = X> + SchemaRead<'de, C2, Dst = X>,
 {
    &&& <T as SchemaRead<'de, C1>>::spec_type_meta() == <T as SchemaRead<'de, C2>>::spec_type_meta()
    &&& forall|b: Seq<u8>| #[trigger]
        <T as SchemaRead<'de, C1>>::spec_decode(b) == <T as SchemaRead<'de, C2>>::spec_decode(b)
}

/// Deserializing under a configuration whose size limit is raised or removed gives the same
/// result wherever the lower limit succeeded, for a schema that reads alike under both
/// configurations (the length encoding and the preallocation limit are shared).
pub proof fn law_deserialize_limit_monotone<
    'de,
    const A: bool,
    const P: usize,
    L: SeqLen,
    D1: SizeLimit,
    D2: SizeLimit,
    X: DeepView,
    T,
>(bytes: Seq<u8>) where
    T: SchemaRead<'de, Configuration<A, P, L, D1>, Dst = X> + SchemaRead<
        'de,
        Configuration<A, P, L, D2>,
        Dst = X,
    >,

    requires
        reads_alike::<'de, Configuration<A, P, L, D1>, Configuration<A, P, L, D2>, X, T>(),
        limit_at_most(D1::spec_limit(), D2::spec_limit()),
        <T as SchemaRead<'de, Configuration<A, P, L, D1>>>::spec_decode(
            size_limited(bytes, D1::spec_limit()),
        ) is Ok,
    ensures
        <T as SchemaRead<'de, Configuration<A, P, L, D2>>>::spec_decode(
            size_limited(bytes, D2::spec_limit()),
        ) == <T as SchemaRead<'de, Configuration<A, P, L, D1>>>::spec_decode(
            size_limited(bytes, D1::spec_limit()),
        ),
{
    let seen = size_limited(bytes, D1::spec_limit());
    let more = size_limited(bytes, D2::spec_limit());
    assert(<T as SchemaRead<'de, Configuration<A, P, L, D1>>>::spec_decode(seen)
        == <T as SchemaRead<'de, Configuration<A, P, L, D2>>>::spec_decode(seen));
    law_limit_monotone::<'de, Configuration<A, P, L, D2>, T>(bytes, D1::spec_limit(), D2::spec_limit());
    assert(<T as SchemaRead<'de, Configuration<A, P, L, D2>>>::spec_decode(more)
        == <T as SchemaRead<'de, Configuration<A, P, L, D2>>>::spec_decode(seen));
}

/// The fixed-size primitives read alike under any two configurations.
pub proof fn law_primitives_read_alike<'de, C1: Config, C2: Config>()
    ensures
        reads_alike::<'de, C1, C2, u8, u8>(),
        reads_alike::<'de, C1, C2, bool, bool>(),
        reads_alike::<'de, C1, C2, u16, u16>(),
        reads_alike::<'de, C1, C2, u32, u32>(),
        reads_alike::<'de, C1, C2, u64, u64>(),
{
}

/// Items of a schema that reads alike under two configurations decode alike under both.
pub proof fn lemma_items_read_alike<'de, C1: Config, C2: Config, X: DeepView, T>(
    bytes: Seq<u8>,
    n: nat,
) where T: SchemaRead<'de, C1, Dst = X> + SchemaRead<'de, C2, Dst = X>,

    requires
        reads_alike::<'de, C1, C2, X, T>(),
    ensures
        decode_items::<'de, C1, T>(bytes, n) == decode_items::<'de, C2, T>(bytes, n),
    decreases n,
{
    if n > 0 {
        assert(<T as SchemaRead<'de, C1>>::spec_decode(bytes) == <T as SchemaRead<
            'de,
            C2,
        >>::spec_decode(bytes));
        if let Ok((v, k)) = <T as SchemaRead<'de, C1>>::spec_decode(bytes) {
            lemma_items_read_alike::<'de, C1, C2, X, T>(bytes.skip(k as int), (n - 1) as nat);
        }
    }
}

/// A vector reads alike under two configurations that share the length encoding and the
/// preallocation limit when its items do: the deserialization size limit does not enter
/// into how it decodes.
pub proof fn law_vec_reads_alike<
    'de,
    const A: bool,
    const P: usize,
    L: SeqLen,
    D1: SizeLimit,
    D2: SizeLimit,
    X: DeepView,
    T,
>() where
    T: SchemaRead<'de, Configuration<A, P, L, D1>, Dst = X> + SchemaRead<
        'de,
        Configuration<A, P, L, D2>,
        Dst = X,
    >,

    requires
        reads_alike::<'de, Configuration<A, P, L, D1>, Configuration<A, P, L, D2>, X, T>(),
    ensures
        reads_alike::<
            'de,
            Configuration<A, P, L, D1>,
            Configuration<A, P, L, D2>,
            Vec<X>,
            Vec<T>,
        >(),
{
    assert forall|b: Seq<u8>|
        #[trigger] <Vec<T> as SchemaRead<'de, Configuration<A, P, L, D1>>>::spec_decode(b)
            == <Vec<T> as SchemaRead<'de, Configuration<A, P, L, D2>>>::spec_decode(b) by {
        if let Ok((len, k)) = L::spec_decode_len(b) {
            let rest = b.skip(k as int);
            lemma_items_read_alike::<
                'de,
                Configuration<A, P, L, D1>,
                Configuration<A, P, L, D2>,
                X,
                T,
            >(rest, len as nat);
            if let TypeMeta::Static { size, .. } = <T as SchemaRead<
                'de,
                Configuration<A, P, L, D1>,
            >>::spec_type_meta() {
                lemma_items_read_alike::<
                    'de,
                    Configuration<A, P, L, D1>,
                    Configuration<A, P, L, D2>,
                    X,
                    T,
                >(rest.take((len as nat * size as nat) as int), len as nat);
            }
        }
    }
}

/// Under a deserialization size limit a decode never takes more bytes than the limit.
pub proof fn law_limit_bounds_decode<'de, C: Config, T: SchemaRead<'de, C>>(
    bytes: Seq<u8>,
    limit: usize,
)
    ensures
        T::spec_decode(size_limited(bytes, Some(limit))) matches Ok((v, n)) ==> n <= limit,
{
    T::lemma_decode_local(size_limited(bytes, Some(limit)));
}

/// A limited reader never yields more than what remains of its limit, and what it yields
/// is the front of what its inner reader would.
pub proof fn law_limit_reader_within_limit<'de, R: Reader<'de>>(reader: LimitReader<R>)
    ensures
        reader.readable().len() <= reader.remaining_limit(),
        reader.readable().is_prefix_of(reader.inner_reader().readable()),
{
    let inner = reader.inner_reader().readable();
    if reader.remaining_limit() < inner.len() {
        assert(inner.subrange(0, reader.remaining_limit() as int) =~= inner.take(
            reader.remaining_limit() as int,
        ));
    } else {
        assert(inner.subrange(0, inner.len() as int) =~= inner);
    }
}

/// Over any sequence of requests on a limited reader, served or refused, what it has passed on
/// to its inner reader is exactly what its limit has lost, and never more than the limit it
/// was made with. `states` are the reader as made and after each request; `sizes` are the
/// requested sizes.
pub proof fn law_limit_reader_accounting<R>(
    states: Seq<LimitReader<R>>,
    sizes: Seq<nat>,
    limit: usize,
)
    requires
        states.len() == sizes.len() + 1,
        states[0].forwarded() == 0,
        states[0].remaining_limit() == limit,
        forall|i: int|
            0 <= i < sizes.len() ==> reservation(#[trigger] states[i], states[i + 1], sizes[i]),
    ensures
        forall|i: int|
            0 <= i < states.len() ==> #[trigger] states[i].forwarded() + states[i].remaining_limit()
                == limit && states[i].forwarded() <= limit,
    decreases sizes.len(),
{
    if sizes.len() > 0 {
        let k = sizes.len() - 1;
        law_limit_reader_accounting(states.take(k + 1), sizes.take(k), limit);
        assert forall|i: int| 0 <= i < states.len() implies #[trigger] states[i].forwarded()
            + states[i].remaining_limit() == limit && states[i].forwarded() <= limit by {
            if i <= k {
                assert(states.take(k + 1)[i] == states[i]);
            } else {
                assert(states.take(k + 1)[k] == states[k]);
                assert(reservation(states[k], states[k + 1], sizes[k]));
            }
        }
    }
}

/// Deserializing the serialization of a value within the decoding limits, under a size limit
/// that covers its encoding, gives the value back.
pub proof fn law_deserialize_serialize<'de, C: Config, T: SchemaRoundtrip<'de, C>>(
    v: <<T as SchemaWrite<C>>::Src as DeepView>::V,
)
    requires
        T::spec_within_limits(v),
        <T as SchemaWrite<C>>::spec_encode(v) matches Ok(b) && (
        C::spec_deserialization_size_limit() matches Some(l) ==> b.len() <= l),
    ensures
        <T as SchemaRead<'de, C>>::spec_decode(
            size_limited(
                <T as SchemaWrite<C>>::spec_encode(v).unwrap(),
                C::spec_deserialization_size_limit(),
            ),
        ) == Ok::<_, ReadError>((v, <T as SchemaWrite<C>>::spec_encode(v).unwrap().len())),
{
    let b = <T as SchemaWrite<C>>::spec_encode(v).unwrap();
    T::lemma_roundtrip(v, Seq::empty());
    assert(b + Seq::<u8>::empty() =~= b);
    if let Some(l) = C::spec_deserialization_size_limit() {
        assert(limited(b, l) == b);
    }
}

/// A sequence of statically sized items encodes to its length prefix followed by exactly
/// the item count times the static size.
pub proof fn law_sequence_size<C: Config, T: SchemaWrite<C>, L: SeqLen>(
    items: Seq<<T::Src as DeepView>::V>,
    size: usize,
)
    requires
        T::spec_type_meta() matches TypeMeta::Static { size: s, .. } && s == size,
        items.len() <= usize::MAX,
    ensures
        encode_seq::<C, T, L>(items) matches Ok(b) ==> b.len() == L::spec_encode_len(
            items.len() as usize,
        ).unwrap().len() + items.len() * size,
{
    lemma_encode_items_static::<C, T>(items, size);
}

} // verus!
