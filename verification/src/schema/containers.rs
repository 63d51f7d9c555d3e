//! Sequences: a length in the configured (or a chosen) length encoding, then the items in
//! order.
use super::{
    Encoding, read_outcome, size_outcome, write_outcome, SchemaRead, SchemaReadContext, SchemaRoundtrip,
    SchemaWrite, TypeMeta,
};
use crate::config::Config;
use crate::error::{self, ReadError, ReadResult, WriteError, WriteResult};
use crate::io::{drop_front, lemma_drop_front_twice, Reader, Writer};
use crate::len::SeqLen;
use vstd::prelude::*;

verus! {

/// Two encodings one after the other; the first one's overflow when it has none, else the
/// second one's.
pub open spec fn join(a: Encoding, b: Encoding) -> Encoding {
    match (a, b) {
        (Ok(x), Ok(y)) => Ok(x + y),
        (Err(m), _) => Err(m),
        (Ok(_), Err(m)) => Err(m),
    }
}

/// The items of a sequence encoded one after another; the overflow of the first one without
/// an encoding, if any.
pub open spec fn encode_items<C: Config, T: SchemaWrite<C>>(
    items: Seq<<T::Src as DeepView>::V>,
) -> Encoding
    decreases items.len(),
{
    if items.len() == 0 {
        Ok(Seq::empty())
    } else {
        join(T::spec_encode(items[0]), encode_items::<C, T>(items.drop_first()))
    }
}

/// A sequence encoded as its length in `L` followed by its items.
pub open spec fn encode_seq<C: Config, T: SchemaWrite<C>, L: SeqLen>(
    items: Seq<<T::Src as DeepView>::V>,
) -> Encoding {
    if items.len() > usize::MAX {
        Err("usize::MAX")
    } else {
        join(L::spec_encode_len(items.len() as usize), encode_items::<C, T>(items))
    }
}

/// Appending an item appends its encoding.
pub proof fn lemma_encode_items_push<C: Config, T: SchemaWrite<C>>(
    items: Seq<<T::Src as DeepView>::V>,
    x: <T::Src as DeepView>::V,
)
    ensures
        encode_items::<C, T>(items.push(x)) == join(encode_items::<C, T>(items), T::spec_encode(x)),
    decreases items.len(),
{
    let e = Seq::<<T::Src as DeepView>::V>::empty();
    if items.len() == 0 {
        assert(items.push(x).drop_first() =~= e);
        assert(encode_items::<C, T>(e) == Ok::<Seq<u8>, &'static str>(Seq::<u8>::empty()));
        assert(items.push(x)[0] == x);
        if let Ok(b) = T::spec_encode(x) {
            assert(b + Seq::<u8>::empty() =~= b);
            assert(Seq::<u8>::empty() + b =~= b);
        }
    } else {
        assert(items.push(x).drop_first() =~= items.drop_first().push(x));
        assert(items.push(x)[0] == items[0]);
        lemma_encode_items_push::<C, T>(items.drop_first(), x);
        match (T::spec_encode(items[0]), encode_items::<C, T>(items.drop_first()), T::spec_encode(x)) {
            (Ok(a), Ok(b), Ok(c)) => {
                assert(a + (b + c) =~= (a + b) + c);
            },
            _ => {},
        }
    }
}

proof fn lemma_prefix_extend(a: Seq<u8>, b: Seq<u8>, c: Seq<u8>)
    requires
        a.is_prefix_of(b),
    ensures
        a.is_prefix_of(b + c),
{
    assert((b + c).subrange(0, a.len() as int) =~= b.subrange(0, a.len() as int));
}

proof fn lemma_prefix_trans(a: Seq<u8>, b: Seq<u8>, c: Seq<u8>)
    requires
        a.is_prefix_of(b),
        b.is_prefix_of(c),
    ensures
        a.is_prefix_of(c),
{
    assert(c.subrange(0, a.len() as int) =~= b.subrange(0, a.len() as int));
}

/// The size of a sequence's encoding with lengths in `L`.
pub fn size_of_seq<C: Config, T: SchemaWrite<C>, L: SeqLen>(items: &Vec<T::Src>) -> (r: WriteResult<usize>)
    ensures
        r == size_outcome(encode_seq::<C, T, L>(items.deep_view())),
{
    let ghost v = items.deep_view();
    let ghost lb = L::spec_encode_len(items.len()).unwrap();
    let mut total: usize = 0;
    let mut overflow = false;
    match L::size_of_len(items.len()) {
        Ok(s) => {
            total = s;
        },
        Err(WriteError::SizeOverflow) => {
            overflow = true;
        },
        Err(e) => {
            return Err(e);
        },
    }
    let mut i: usize = 0;
    assert(v.take(0) =~= Seq::<<T::Src as DeepView>::V>::empty());
    while i < items.len()
        invariant
            v == items.deep_view(),
            v.len() == items.len(),
            0 <= i <= items.len(),
            L::spec_encode_len(items.len()) == Ok::<Seq<u8>, &'static str>(lb),
            encode_items::<C, T>(v.take(i as int)) is Ok,
            !overflow ==> total == lb.len() + encode_items::<C, T>(v.take(i as int)).unwrap().len(),
            overflow ==> lb.len() + encode_items::<C, T>(v.take(i as int)).unwrap().len() > usize::MAX,
        decreases items.len() - i,
    {
        let ghost before = encode_items::<C, T>(v.take(i as int)).unwrap();
        proof {
            lemma_encode_items_push::<C, T>(v.take(i as int), v[i as int]);
            assert(v.take(i as int).push(v[i as int]) =~= v.take(i + 1));
        }
        match T::size_of(&items[i]) {
            Ok(s) => {
                if !overflow {
                    match total.checked_add(s) {
                        Some(t) => {
                            total = t;
                        },
                        None => {
                            overflow = true;
                        },
                    }
                }
            },
            Err(WriteError::SizeOverflow) => {
                overflow = true;
            },
            Err(e) => {
                proof {
                    assert(encode_items::<C, T>(v.take(i + 1)) is Err);
                    lemma_items_err_extends::<C, T>(v, i as int + 1);
                }
                return Err(e);
            },
        }
        i += 1;
    }
    assert(v.take(v.len() as int) =~= v);
    if overflow {
        Err(WriteError::SizeOverflow)
    } else {
        Ok(total)
    }
}

/// Once a prefix of the items has no encoding, the whole has none, for the same overflow.
proof fn lemma_items_err_extends<C: Config, T: SchemaWrite<C>>(
    v: Seq<<T::Src as DeepView>::V>,
    i: int,
)
    requires
        0 <= i <= v.len(),
        encode_items::<C, T>(v.take(i)) is Err,
    ensures
        encode_items::<C, T>(v) == encode_items::<C, T>(v.take(i)),
    decreases v.len() - i,
{
    if i < v.len() {
        lemma_encode_items_push::<C, T>(v.take(i), v[i]);
        assert(v.take(i).push(v[i]) =~= v.take(i + 1));
        lemma_items_err_extends::<C, T>(v, i + 1);
    } else {
        assert(v.take(i) =~= v);
    }
}

/// The encoding of a prefix of the items is a prefix of the encoding of all of them.
proof fn lemma_items_prefix<C: Config, T: SchemaWrite<C>>(
    v: Seq<<T::Src as DeepView>::V>,
    j: int,
    k: int,
)
    requires
        0 <= j <= k <= v.len(),
        encode_items::<C, T>(v.take(k)) is Ok,
    ensures
        encode_items::<C, T>(v.take(j)) is Ok,
        encode_items::<C, T>(v.take(j)).unwrap().is_prefix_of(
            encode_items::<C, T>(v.take(k)).unwrap(),
        ),
    decreases k - j,
{
    if j < k {
        lemma_encode_items_push::<C, T>(v.take(k - 1), v[k - 1]);
        assert(v.take(k - 1).push(v[k - 1]) =~= v.take(k));
        lemma_items_prefix::<C, T>(v, j, k - 1);
        let a = encode_items::<C, T>(v.take(j)).unwrap();
        let b = encode_items::<C, T>(v.take(k - 1)).unwrap();
        let c = T::spec_encode(v[k - 1]).unwrap();
        lemma_prefix_extend(a, b, c);
    }
}

/// Write a sequence's encoding with lengths in `L`.
pub fn write_seq<C: Config, T: SchemaWrite<C>, L: SeqLen, W: Writer>(
    writer: &mut W,
    items: &Vec<T::Src>,
) -> (r: WriteResult<()>)
    ensures
        write_outcome(*old(writer), *final(writer), encode_seq::<C, T, L>(items.deep_view()), r),
{
    let ghost v = items.deep_view();
    let ghost w0 = *writer;
    let ghost enc = encode_seq::<C, T, L>(v);
    match L::write_len(writer, items.len()) {
        Ok(()) => {},
        Err(e) => {
            proof {
                if let Ok(lb) = L::spec_encode_len(items.len()) {
                    if let Ok(ib) = encode_items::<C, T>(v) {
                        assert(w0.written() + (lb + ib) =~= (w0.written() + lb) + ib);
                        lemma_prefix_extend(writer.written(), w0.written() + lb, ib);
                    }
                }
            }
            return Err(e);
        },
    }
    let ghost lb = L::spec_encode_len(items.len()).unwrap();
    let mut i: usize = 0;
    assert(v.take(0) =~= Seq::<<T::Src as DeepView>::V>::empty());
    assert(w0.written() + lb + Seq::<u8>::empty() =~= w0.written() + lb);
    while i < items.len()
        invariant
            v == items.deep_view(),
            v.len() == items.len(),
            0 <= i <= items.len(),
            enc == encode_seq::<C, T, L>(v),
            w0 == *old(writer),
            L::spec_encode_len(items.len()) == Ok::<Seq<u8>, &'static str>(lb),
            lb.len() <= w0.free(),
            encode_items::<C, T>(v.take(i as int)) is Ok,
            writer.written() =~= w0.written() + lb + encode_items::<C, T>(v.take(i as int)).unwrap(),
            writer.free() == w0.free() - lb.len() - encode_items::<C, T>(v.take(i as int)).unwrap().len(),
            writer.unwritten() == drop_front(
                w0.unwritten(),
                lb.len() + encode_items::<C, T>(v.take(i as int)).unwrap().len(),
            ),
        decreases items.len() - i,
    {
        let ghost p = encode_items::<C, T>(v.take(i as int)).unwrap();
        let ghost wi = *writer;
        proof {
            lemma_encode_items_push::<C, T>(v.take(i as int), v[i as int]);
            assert(v.take(i as int).push(v[i as int]) =~= v.take(i + 1));
        }
        match T::write(writer, &items[i]) {
            Ok(()) => {
                proof {
                    lemma_drop_front_twice(
                        w0.unwritten(),
                        lb.len() + p.len(),
                        T::spec_encode(v[i as int]).unwrap().len(),
                    );
                }
            },
            Err(e) => {
                proof {
                    assert(w0.written().is_prefix_of(wi.written()));
                    match T::spec_encode(v[i as int]) {
                        Err(_) => {
                            lemma_items_err_extends::<C, T>(v, i + 1);
                            lemma_prefix_trans(w0.written(), wi.written(), writer.written());
                        },
                        Ok(c) => {
                            assert(c.len() > wi.free());
                            assert(wi.written().is_prefix_of(writer.written()));
                            lemma_prefix_trans(w0.written(), wi.written(), writer.written());
                            if let Ok(ib) = encode_items::<C, T>(v) {
                                assert(v.take(v.len() as int) =~= v);
                                lemma_items_prefix::<C, T>(v, i + 1, v.len() as int);
                                assert(p + c == encode_items::<C, T>(v.take(i + 1)).unwrap());
                                assert(wi.written() + c =~= w0.written() + lb + (p + c));
                                let q = p + c;
                                assert(ib.subrange(0, q.len() as int) =~= q);
                                assert((w0.written() + (lb + ib)).subrange(0, (w0.written() + lb + q).len() as int) =~= w0.written() + lb + q);
                                assert((w0.written() + lb + q).is_prefix_of(w0.written() + (lb + ib)));
                                lemma_prefix_trans(writer.written(), wi.written() + c, w0.written() + (lb + ib));
                            }
                        },
                    }
                }
                return Err(e);
            },
        }
        i += 1;
    }
    assert(v.take(v.len() as int) =~= v);
    Ok(())
}

/// `n` items decoded one after another, with the bytes they take together; or the first
/// item's error.
pub open spec fn decode_items<'de, C: Config, T: SchemaRead<'de, C>>(bytes: Seq<u8>, n: nat) -> Result<
    (Seq<<T::Dst as DeepView>::V>, nat),
    ReadError,
>
    decreases n,
{
    if n == 0 {
        Ok((Seq::empty(), 0))
    } else {
        match T::spec_decode(bytes) {
            Err(e) => Err(e),
            Ok((v, k)) => match decode_items::<'de, C, T>(bytes.skip(k as int), (n - 1) as nat) {
                Err(e) => Err(e),
                Ok((vs, m)) => Ok((seq![v] + vs, k + m)),
            },
        }
    }
}

/// Put already decoded items, taking `c` bytes, in front of the decoding of the rest.
pub open spec fn after_items<V>(
    done: Seq<V>,
    c: nat,
    rest: Result<(Seq<V>, nat), ReadError>,
) -> Result<(Seq<V>, nat), ReadError> {
    match rest {
        Ok((vs, m)) => Ok((done + vs, c + m)),
        Err(e) => Err(e),
    }
}

/// `len` items whose count is already known.
///
/// Before reading any item, the count is checked against the preallocation limit: the
/// items' in-memory size must fit in a `usize` and must not pass the limit. Items of a
/// statically sized type are then read from one window over all their bytes, so input too
/// short for all of them fails up front with the size of the window.
pub open spec fn decode_counted<'de, C: Config, T: SchemaRead<'de, C>>(bytes: Seq<u8>, len: usize) -> Result<
    (Seq<<T::Dst as DeepView>::V>, nat),
    ReadError,
> {
    let needed: nat = len as nat * vstd::layout::size_of::<T::Dst>();
    if needed > usize::MAX {
        Err(ReadError::LengthEncodingOverflow("usize::MAX"))
    } else if needed > C::spec_preallocation_size_limit() {
        Err(
            ReadError::PreallocationSizeLimit {
                needed: needed as usize,
                limit: C::spec_preallocation_size_limit(),
            },
        )
    } else {
        match T::spec_type_meta() {
            TypeMeta::Static { size, .. } => {
                let window: nat = len as nat * size as nat;
                if window > usize::MAX {
                    Err(ReadError::LengthEncodingOverflow("usize::MAX"))
                } else if bytes.len() < window {
                    Err(ReadError::Io(crate::io::ReadError::ReadSizeLimit(window as usize)))
                } else {
                    match decode_items::<'de, C, T>(bytes.take(window as int), len as nat) {
                        Ok((vs, _)) => Ok((vs, window)),
                        Err(e) => Err(e),
                    }
                }
            },
            TypeMeta::Dynamic => decode_items::<'de, C, T>(bytes, len as nat),
        }
    }
}

/// A sequence decoded as its length in `L` followed by its items.
pub open spec fn decode_seq<'de, C: Config, T: SchemaRead<'de, C>, L: SeqLen>(bytes: Seq<u8>) -> Result<
    (Seq<<T::Dst as DeepView>::V>, nat),
    ReadError,
> {
    match L::spec_decode_len(bytes) {
        Err(e) => Err(e),
        Ok((len, k)) => after_items(
            Seq::empty(),
            k,
            decode_counted::<'de, C, T>(bytes.skip(k as int), len),
        ),
    }
}

/// Read `n` items one after another.
pub fn read_items<'de, C: Config, T: SchemaRead<'de, C>, R: Reader<'de>>(reader: &mut R, n: usize) -> (r:
    ReadResult<Vec<T::Dst>>)
    ensures
        read_outcome(
            old(reader).readable(),
            final(reader).readable(),
            old(reader).source(),
            final(reader).source(),
            decode_items::<'de, C, T>(old(reader).readable(), n as nat),
            r,
        ),
{
    let ghost orig = reader.readable();
    let ghost orig_source = reader.source();
    proof {
        reader.lemma_readable_in_source();
    }
    let ghost mut c: nat = 0;
    let mut out: Vec<T::Dst> = Vec::new();
    let mut i: usize = 0;
    assert(orig.skip(0) =~= orig);
    assert(orig_source.skip(0) =~= orig_source);
    assert(Seq::<<T::Dst as DeepView>::V>::empty() + Seq::<<T::Dst as DeepView>::V>::empty() =~= Seq::<<T::Dst as DeepView>::V>::empty());
    while i < n
        invariant
            orig == old(reader).readable(),
            orig_source == old(reader).source(),
            orig.len() <= orig_source.len(),
            0 <= i <= n,
            c <= orig.len(),
            reader.readable() =~= orig.skip(c as int),
            reader.source() =~= orig_source.skip(c as int),
            decode_items::<'de, C, T>(orig, n as nat) == after_items(
                out.deep_view(),
                c,
                decode_items::<'de, C, T>(reader.readable(), (n - i) as nat),
            ),
        decreases n - i,
    {
        let ghost cur = reader.readable();
        match T::get(reader) {
            Ok(x) => {
                let ghost k = T::spec_decode(cur)->Ok_0.1;
                let ghost prev = out.deep_view();
                out.push(x);
                proof {
                    assert(out.deep_view() =~= prev.push(x.deep_view()));
                    assert(orig.skip((c + k) as int) =~= cur.skip(k as int));
                    assert(orig_source.skip((c + k) as int) =~= orig_source.skip(c as int).skip(k as int));
                    match decode_items::<'de, C, T>(cur.skip(k as int), (n - i - 1) as nat) {
                        Ok((vs, m)) => {
                            assert(prev + (seq![x.deep_view()] + vs) =~= out.deep_view() + vs);
                        },
                        Err(_) => {},
                    }
                    c = c + k;
                }
            },
            Err(e) => {
                return Err(e);
            },
        }
        i += 1;
    }
    proof {
        assert(out.deep_view() + Seq::<<T::Dst as DeepView>::V>::empty() =~= out.deep_view());
    }
    Ok(out)
}

/// Read `len` items whose count is already known.
pub fn read_counted<'de, C: Config, T: SchemaRead<'de, C>, R: Reader<'de>>(reader: &mut R, len: usize) -> (r:
    ReadResult<Vec<T::Dst>>)
    ensures
        read_outcome(
            old(reader).readable(),
            final(reader).readable(),
            old(reader).source(),
            final(reader).source(),
            decode_counted::<'de, C, T>(old(reader).readable(), len),
            r,
        ),
{
    let unit = core::mem::size_of::<T::Dst>();
    let needed = match len.checked_mul(unit) {
        None => {
            return Err(error::read_length_encoding_overflow("usize::MAX"));
        },
        Some(n) => n,
    };
    let limit = C::preallocation_size_limit();
    if needed > limit {
        return Err(ReadError::PreallocationSizeLimit { needed, limit });
    }
    match T::type_meta() {
        TypeMeta::Static { size, .. } => {
            let mut window: &'de [u8] = reader.as_trusted_for_seq(len, size)?;
            read_items::<C, T, &'de [u8]>(&mut window, len)
        },
        TypeMeta::Dynamic => read_items::<C, T, R>(reader, len),
    }
}

/// Read a sequence with lengths in `L`.
pub fn read_seq<'de, C: Config, T: SchemaRead<'de, C>, L: SeqLen, R: Reader<'de>>(reader: &mut R) -> (r:
    ReadResult<Vec<T::Dst>>)
    ensures
        read_outcome(
            old(reader).readable(),
            final(reader).readable(),
            old(reader).source(),
            final(reader).source(),
            decode_seq::<'de, C, T, L>(old(reader).readable()),
            r,
        ),
{
    let ghost orig = reader.readable();
    let ghost orig_source = reader.source();
    proof {
        reader.lemma_readable_in_source();
    }
    let len = L::read_len(reader)?;
    let ghost k = L::spec_decode_len(orig)->Ok_0.1;
    let ghost rest = reader.readable();
    let r = read_counted::<C, T, R>(reader, len);
    proof {
        assert(rest =~= orig.skip(k as int));
        if let Ok((vs, m)) = decode_counted::<'de, C, T>(rest, len) {
            assert(Seq::<<T::Dst as DeepView>::V>::empty() + vs =~= vs);
            assert(reader.readable() =~= orig.skip((k + m) as int));
            assert(reader.source() =~= orig_source.skip((k + m) as int));
        }
    }
    r
}

/// Decoding items looks at no byte past what they take.
pub proof fn lemma_decode_items_local<'de, C: Config, T: SchemaRead<'de, C>>(bytes: Seq<u8>, n: nat)
    ensures
        decode_items::<'de, C, T>(bytes, n) matches Ok((vs, m)) ==> m <= bytes.len()
            && decode_items::<'de, C, T>(bytes.take(m as int), n) == decode_items::<'de, C, T>(
            bytes,
            n,
        ),
    decreases n,
{
    if n > 0 {
        T::lemma_decode_local(bytes);
        if let Ok((v, k)) = T::spec_decode(bytes) {
            lemma_decode_items_local::<'de, C, T>(bytes.skip(k as int), (n - 1) as nat);
            if let Ok((vs, m)) = decode_items::<'de, C, T>(bytes.skip(k as int), (n - 1) as nat) {
                let total = k + m;
                let t = bytes.take(total as int);
                T::lemma_decode_prefix(bytes.take(k as int), t.skip(k as int));
                assert(bytes.take(k as int) + t.skip(k as int) =~= t);
                assert(t.skip(k as int) =~= bytes.skip(k as int).take(m as int));
            }
        }
    }
}

/// Bytes after decoded items do not change them.
pub proof fn lemma_decode_items_prefix<'de, C: Config, T: SchemaRead<'de, C>>(
    bytes: Seq<u8>,
    extra: Seq<u8>,
    n: nat,
)
    ensures
        decode_items::<'de, C, T>(bytes, n) is Ok ==> decode_items::<'de, C, T>(bytes + extra, n)
            == decode_items::<'de, C, T>(bytes, n),
    decreases n,
{
    if n > 0 {
        T::lemma_decode_local(bytes);
        T::lemma_decode_prefix(bytes, extra);
        if let Ok((v, k)) = T::spec_decode(bytes) {
            assert((bytes + extra).skip(k as int) =~= bytes.skip(k as int) + extra);
            lemma_decode_items_prefix::<'de, C, T>(bytes.skip(k as int), extra, (n - 1) as nat);
        }
    }
}

/// Items of a statically sized type encode to their count times the static size.
pub proof fn lemma_encode_items_static<C: Config, T: SchemaWrite<C>>(
    items: Seq<<T::Src as DeepView>::V>,
    size: usize,
)
    requires
        T::spec_type_meta() matches TypeMeta::Static { size: s, .. } && s == size,
    ensures
        encode_items::<C, T>(items) matches Ok(b) && b.len() == items.len() * size,
    decreases items.len(),
{
    if items.len() > 0 {
        T::lemma_encode_static(items[0]);
        lemma_encode_items_static::<C, T>(items.drop_first(), size);
        assert(items.len() * size == size + (items.len() - 1) * size) by (nonlinear_arith)
            requires
                items.len() > 0,
        ;
    }
}

/// Decoding the encoding of items within the limits, followed by any bytes, gives them back.
pub proof fn lemma_items_roundtrip<'de, C: Config, T: SchemaRoundtrip<'de, C>>(
    items: Seq<<<T as SchemaWrite<C>>::Src as DeepView>::V>,
    extra: Seq<u8>,
)
    requires
        forall|i: int| 0 <= i < items.len() ==> T::spec_within_limits(#[trigger] items[i]),
    ensures
        encode_items::<C, T>(items) matches Ok(b) ==> decode_items::<'de, C, T>(
            b + extra,
            items.len(),
        ) == Ok::<_, ReadError>((items, b.len())),
    decreases items.len(),
{
    if items.len() > 0 {
        if let Ok(b) = encode_items::<C, T>(items) {
            let a = T::spec_encode(items[0]).unwrap();
            let rest = encode_items::<C, T>(items.drop_first()).unwrap();
            assert(items[0] == items[0]);
            T::lemma_roundtrip(items[0], rest + extra);
            assert(b + extra =~= a + (rest + extra));
            assert((b + extra).skip(a.len() as int) =~= rest + extra);
            assert forall|i: int| 0 <= i < items.drop_first().len() implies T::spec_within_limits(
                #[trigger] items.drop_first()[i],
            ) by {
                assert(items.drop_first()[i] == items[i + 1]);
            }
            lemma_items_roundtrip::<'de, C, T>(items.drop_first(), extra);
            assert(seq![items[0]] + items.drop_first() =~= items);
            assert(<T as SchemaRead<'de, C>>::spec_decode(b + extra) == Ok::<_, ReadError>((items[0], a.len())));
            assert(decode_items::<'de, C, T>((b + extra).skip(a.len() as int), (items.len() - 1) as nat)
                == Ok::<_, ReadError>((items.drop_first(), rest.len())));
            assert(b.len() == a.len() + rest.len());

        }
    } else {
        assert(items =~= Seq::empty());
    }
}

/// Decoding counted items looks at no byte past what they take.
pub proof fn lemma_decode_counted_local<'de, C: Config, T: SchemaRead<'de, C>>(bytes: Seq<u8>, len: usize)
    ensures
        decode_counted::<'de, C, T>(bytes, len) matches Ok((vs, n)) ==> n <= bytes.len()
            && decode_counted::<'de, C, T>(bytes.take(n as int), len) == decode_counted::<'de, C, T>(
            bytes,
            len,
        ),
{
    if let Ok((vs, n)) = decode_counted::<'de, C, T>(bytes, len) {
        match T::spec_type_meta() {
            TypeMeta::Static { size, .. } => {
                let window = len as nat * size as nat;
                assert(bytes.take(n as int).take(window as int) =~= bytes.take(window as int));
            },
            TypeMeta::Dynamic => {
                lemma_decode_items_local::<'de, C, T>(bytes, len as nat);
            },
        }
    }
}

/// Bytes after counted items do not change them.
pub proof fn lemma_decode_counted_prefix<'de, C: Config, T: SchemaRead<'de, C>>(
    bytes: Seq<u8>,
    extra: Seq<u8>,
    len: usize,
)
    ensures
        decode_counted::<'de, C, T>(bytes, len) is Ok ==> decode_counted::<'de, C, T>(
            bytes + extra,
            len,
        ) == decode_counted::<'de, C, T>(bytes, len),
{
    if let Ok((vs, n)) = decode_counted::<'de, C, T>(bytes, len) {
        match T::spec_type_meta() {
            TypeMeta::Static { size, .. } => {
                let window = len as nat * size as nat;
                assert((bytes + extra).take(window as int) =~= bytes.take(window as int));
            },
            TypeMeta::Dynamic => {
                lemma_decode_items_prefix::<'de, C, T>(bytes, extra, len as nat);
            },
        }
    }
}

/// Decoding a sequence looks at no byte past what it takes.
pub proof fn lemma_decode_seq_local<'de, C: Config, T: SchemaRead<'de, C>, L: SeqLen>(bytes: Seq<u8>)
    ensures
        decode_seq::<'de, C, T, L>(bytes) matches Ok((vs, n)) ==> n <= bytes.len()
            && decode_seq::<'de, C, T, L>(bytes.take(n as int)) == decode_seq::<'de, C, T, L>(bytes),
{
    if let Ok((vs, n)) = decode_seq::<'de, C, T, L>(bytes) {
        let t = bytes.take(n as int);
        L::lemma_len_local(bytes, Seq::empty());
        let (len, k) = L::spec_decode_len(bytes)->Ok_0;
        let rest = bytes.skip(k as int);
        lemma_decode_counted_local::<'de, C, T>(rest, len);
        let m = decode_counted::<'de, C, T>(rest, len)->Ok_0.1;
        assert(n == k + m);
        assert(t.skip(k as int) =~= rest.take(m as int));
        L::lemma_len_local(bytes.take(k as int), t.skip(k as int));
        assert(bytes.take(k as int) + t.skip(k as int) =~= t);
        assert(bytes.take(k as int).take(k as int) =~= bytes.take(k as int));
    }
}

/// Bytes after a decoded sequence do not change it.
pub proof fn lemma_decode_seq_prefix<'de, C: Config, T: SchemaRead<'de, C>, L: SeqLen>(
    bytes: Seq<u8>,
    extra: Seq<u8>,
)
    ensures
        decode_seq::<'de, C, T, L>(bytes) is Ok ==> decode_seq::<'de, C, T, L>(bytes + extra)
            == decode_seq::<'de, C, T, L>(bytes),
{
    if let Ok((vs, n)) = decode_seq::<'de, C, T, L>(bytes) {
        L::lemma_len_local(bytes, extra);
        let (len, k) = L::spec_decode_len(bytes)->Ok_0;
        let rest = bytes.skip(k as int);
        assert((bytes + extra).skip(k as int) =~= rest + extra);
        lemma_decode_counted_prefix::<'de, C, T>(rest, extra, len);
    }
}

/// Whether items read back with their count known stay within the limits of `C`: their
/// encoding's length fits in a `usize`, their in-memory size passes neither a `usize` nor
/// the preallocation limit, and each item is within the limits.
pub open spec fn items_within_limits<'de, C: Config, T: SchemaRoundtrip<'de, C>>(
    items: Seq<<<T as SchemaWrite<C>>::Src as DeepView>::V>,
) -> bool {
    &&& encode_items::<C, T>(items) matches Ok(b) ==> b.len() <= usize::MAX
    &&& items.len() * vstd::layout::size_of::<<T as SchemaRead<'de, C>>::Dst>()
        <= C::spec_preallocation_size_limit()
    &&& forall|i: int| 0 <= i < items.len() ==> T::spec_within_limits(#[trigger] items[i])
}

/// Whether a sequence read back stays within the limits of `C`: its encoding's length fits
/// in a `usize` and its items are within the limits.
pub open spec fn seq_within_limits<'de, C: Config, T: SchemaRoundtrip<'de, C>, L: SeqLen>(
    items: Seq<<<T as SchemaWrite<C>>::Src as DeepView>::V>,
) -> bool {
    &&& encode_seq::<C, T, L>(items) matches Ok(b) ==> b.len() <= usize::MAX
    &&& items_within_limits::<'de, C, T>(items)
}

/// Decoding the encoding of counted items within the limits, followed by any bytes, gives
/// them back and takes exactly their encoding.
pub proof fn lemma_counted_roundtrip<'de, C: Config, T: SchemaRoundtrip<'de, C>>(
    items: Seq<<<T as SchemaWrite<C>>::Src as DeepView>::V>,
    extra: Seq<u8>,
)
    requires
        items_within_limits::<'de, C, T>(items),
        items.len() <= usize::MAX,
    ensures
        encode_items::<C, T>(items) matches Ok(ib) ==> decode_counted::<'de, C, T>(
            ib + extra,
            items.len() as usize,
        ) == Ok::<_, ReadError>((items, ib.len())),
{
    if let Ok(ib) = encode_items::<C, T>(items) {
        lemma_items_roundtrip::<'de, C, T>(items, extra);
        T::lemma_type_meta_agrees();
        match <T as SchemaRead<'de, C>>::spec_type_meta() {
            TypeMeta::Static { size, .. } => {
                lemma_encode_items_static::<C, T>(items, size);
                assert((ib + extra).take(ib.len() as int) =~= ib);
                lemma_items_roundtrip::<'de, C, T>(items, Seq::empty());
                assert(ib + Seq::<u8>::empty() =~= ib);
            },
            TypeMeta::Dynamic => {},
        }
    }
}

/// Decoding the encoding of a sequence within the limits, followed by any bytes, gives it
/// back and takes exactly its encoding.
pub proof fn lemma_seq_roundtrip<'de, C: Config, T: SchemaRoundtrip<'de, C>, L: SeqLen>(
    items: Seq<<<T as SchemaWrite<C>>::Src as DeepView>::V>,
    extra: Seq<u8>,
)
    requires
        seq_within_limits::<'de, C, T, L>(items),
    ensures
        encode_seq::<C, T, L>(items) matches Ok(b) ==> decode_seq::<'de, C, T, L>(b + extra)
            == Ok::<_, ReadError>((items, b.len())),
{
    if let Ok(b) = encode_seq::<C, T, L>(items) {
        let lb = L::spec_encode_len(items.len() as usize).unwrap();
        let ib = encode_items::<C, T>(items).unwrap();
        assert(b + extra =~= lb + (ib + extra));
        L::lemma_len_roundtrip(items.len() as usize, ib + extra);
        assert((b + extra).skip(lb.len() as int) =~= ib + extra);
        lemma_counted_roundtrip::<'de, C, T>(items, extra);
        assert(Seq::<<<T as SchemaWrite<C>>::Src as DeepView>::V>::empty() + items =~= items);
    }
}

/// `Vec<T>` is written as a sequence with the configuration's length encoding.
impl<C: Config, T: SchemaWrite<C>> SchemaWrite<C> for Vec<T> {
    type Src = Vec<T::Src>;

    open spec fn spec_type_meta() -> TypeMeta {
        TypeMeta::Dynamic
    }

    open spec fn spec_encode(src: Seq<<T::Src as DeepView>::V>) -> Encoding {
        encode_seq::<C, T, C::LengthEncoding>(src)
    }

    fn type_meta() -> (m: TypeMeta) {
        TypeMeta::Dynamic
    }

    fn size_of(src: &Vec<T::Src>) -> (r: WriteResult<usize>) {
        size_of_seq::<C, T, C::LengthEncoding>(src)
    }

    fn write<W: Writer>(writer: &mut W, src: &Vec<T::Src>) -> (r: WriteResult<()>) {
        write_seq::<C, T, C::LengthEncoding, W>(writer, src)
    }

    proof fn lemma_encode_static(src: Seq<<T::Src as DeepView>::V>) {
    }
}

/// `Vec<T>` is read as a sequence with the configuration's length encoding.
impl<'de, C: Config, T: SchemaRead<'de, C>> SchemaRead<'de, C> for Vec<T> {
    type Dst = Vec<T::Dst>;

    open spec fn spec_type_meta() -> TypeMeta {
        TypeMeta::Dynamic
    }

    open spec fn spec_decode(bytes: Seq<u8>) -> Result<(Seq<<T::Dst as DeepView>::V>, nat), ReadError> {
        decode_seq::<'de, C, T, C::LengthEncoding>(bytes)
    }

    fn type_meta() -> (m: TypeMeta) {
        TypeMeta::Dynamic
    }

    fn get<R: Reader<'de>>(reader: &mut R) -> (r: ReadResult<Vec<T::Dst>>) {
        read_seq::<C, T, C::LengthEncoding, R>(reader)
    }

    proof fn lemma_decode_local(bytes: Seq<u8>) {
        lemma_decode_seq_local::<'de, C, T, C::LengthEncoding>(bytes);
    }

    proof fn lemma_decode_prefix(bytes: Seq<u8>, extra: Seq<u8>) {
        lemma_decode_seq_prefix::<'de, C, T, C::LengthEncoding>(bytes, extra);
    }

    proof fn lemma_decode_static(bytes: Seq<u8>) {
    }
}

impl<'de, C: Config, T: SchemaRoundtrip<'de, C>> SchemaRoundtrip<'de, C> for Vec<T> {
    open spec fn spec_within_limits(v: Seq<<<T as SchemaWrite<C>>::Src as DeepView>::V>) -> bool {
        seq_within_limits::<'de, C, T, C::LengthEncoding>(v)
    }

    proof fn lemma_roundtrip(v: Seq<<<T as SchemaWrite<C>>::Src as DeepView>::V>, extra: Seq<u8>) {
        lemma_seq_roundtrip::<'de, C, T, C::LengthEncoding>(v, extra);
    }

    proof fn lemma_type_meta_agrees() {
    }
}

/// `Vec<T>` read with its item count supplied by the caller, without a length in front.
impl<'de, C: Config, T: SchemaRead<'de, C>> SchemaReadContext<'de, C, usize> for Vec<T> {
    type Dst = Vec<T::Dst>;

    open spec fn spec_decode_with(ctx: usize, bytes: Seq<u8>) -> Result<
        (Seq<<T::Dst as DeepView>::V>, nat),
        ReadError,
    > {
        decode_counted::<'de, C, T>(bytes, ctx)
    }

    fn get_with_context<R: Reader<'de>>(ctx: usize, reader: &mut R) -> (r: ReadResult<Vec<T::Dst>>) {
        read_counted::<C, T, R>(reader, ctx)
    }
}

/// A schema for `Vec<T::Src>` whose length is written with `L`, whatever the configuration's
/// length encoding.
pub struct VecOf<T, L> {
    marker: core::marker::PhantomData<(T, L)>,
}

impl<C: Config, T: SchemaWrite<C>, L: SeqLen> SchemaWrite<C> for VecOf<T, L> {
    type Src = Vec<T::Src>;

    open spec fn spec_type_meta() -> TypeMeta {
        TypeMeta::Dynamic
    }

    open spec fn spec_encode(src: Seq<<T::Src as DeepView>::V>) -> Encoding {
        encode_seq::<C, T, L>(src)
    }

    fn type_meta() -> (m: TypeMeta) {
        TypeMeta::Dynamic
    }

    fn size_of(src: &Vec<T::Src>) -> (r: WriteResult<usize>) {
        size_of_seq::<C, T, L>(src)
    }

    fn write<W: Writer>(writer: &mut W, src: &Vec<T::Src>) -> (r: WriteResult<()>) {
        write_seq::<C, T, L, W>(writer, src)
    }

    proof fn lemma_encode_static(src: Seq<<T::Src as DeepView>::V>) {
    }
}

impl<'de, C: Config, T: SchemaRead<'de, C>, L: SeqLen> SchemaRead<'de, C> for VecOf<T, L> {
    type Dst = Vec<T::Dst>;

    open spec fn spec_type_meta() -> TypeMeta {
        TypeMeta::Dynamic
    }

    open spec fn spec_decode(bytes: Seq<u8>) -> Result<(Seq<<T::Dst as DeepView>::V>, nat), ReadError> {
        decode_seq::<'de, C, T, L>(bytes)
    }

    fn type_meta() -> (m: TypeMeta) {
        TypeMeta::Dynamic
    }

    fn get<R: Reader<'de>>(reader: &mut R) -> (r: ReadResult<Vec<T::Dst>>) {
        read_seq::<C, T, L, R>(reader)
    }

    proof fn lemma_decode_local(bytes: Seq<u8>) {
        lemma_decode_seq_local::<'de, C, T, L>(bytes);
    }

    proof fn lemma_decode_prefix(bytes: Seq<u8>, extra: Seq<u8>) {
        lemma_decode_seq_prefix::<'de, C, T, L>(bytes, extra);
    }

    proof fn lemma_decode_static(bytes: Seq<u8>) {
    }
}

impl<'de, C: Config, T: SchemaRoundtrip<'de, C>, L: SeqLen> SchemaRoundtrip<'de, C> for VecOf<T, L> {
    open spec fn spec_within_limits(v: Seq<<<T as SchemaWrite<C>>::Src as DeepView>::V>) -> bool {
        seq_within_limits::<'de, C, T, L>(v)
    }

    proof fn lemma_roundtrip(v: Seq<<<T as SchemaWrite<C>>::Src as DeepView>::V>, extra: Seq<u8>) {
        lemma_seq_roundtrip::<'de, C, T, L>(v, extra);
    }

    proof fn lemma_type_meta_agrees() {
    }
}

} // verus!
