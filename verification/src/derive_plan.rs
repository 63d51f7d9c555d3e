//! The decisions behind the derived `SchemaWrite` and `SchemaRead` impls, on plain values.
//!
//! A derive sees a struct's or enum's fields as syntax; what it decides from them is stated
//! here over a plain description of each field: whether it is skipped (it takes no wire
//! bytes) and whether it is read with the caller's context. What is known of each field's
//! size is only known where the derived code runs; the functions over [`TypeMeta`] here are
//! what that code calls. The token generation that turns these decisions into code lives
//! outside the library.
use crate::schema::TypeMeta;
use vstd::prelude::*;

verus! {

/// What the derive needs to know of one field.
#[derive(Clone, Copy, Debug, PartialEq, Eq, Structural)]
pub struct FieldPlan {
    /// The field takes no wire bytes and is filled with a default when read.
    pub skip: bool,
    /// The field is read with the caller's context.
    pub context: bool,
}

/// The number of fields among `fields` that reach the wire.
pub open spec fn count_unskipped(fields: Seq<FieldPlan>) -> nat
    decreases fields.len(),
{
    if fields.len() == 0 {
        0
    } else {
        count_unskipped(fields.drop_last()) + if fields.last().skip {
            0nat
        } else {
            1nat
        }
    }
}

/// Each field's position among the fields that reach the wire; none for a skipped field.
pub fn wire_positions(fields: &Vec<FieldPlan>) -> (r: Vec<Option<usize>>)
    ensures
        r@.len() == fields@.len(),
        forall|i: int|
            0 <= i < fields@.len() ==> #[trigger] r@[i] == if fields@[i].skip {
                None::<usize>
            } else {
                Some(count_unskipped(fields@.take(i)) as usize)
            },
{
    let mut r: Vec<Option<usize>> = Vec::new();
    let mut count: usize = 0;
    let mut i: usize = 0;
    assert(fields@.take(0) =~= Seq::<FieldPlan>::empty());
    while i < fields.len()
        invariant
            0 <= i <= fields@.len(),
            r@.len() == i,
            count == count_unskipped(fields@.take(i as int)),
            count <= i,
            forall|j: int|
                0 <= j < i ==> #[trigger] r@[j] == if fields@[j].skip {
                    None::<usize>
                } else {
                    Some(count_unskipped(fields@.take(j)) as usize)
                },
        decreases fields.len() - i,
    {
        assert(fields@.take(i + 1).drop_last() =~= fields@.take(i as int));
        if fields[i].skip {
            r.push(None);
        } else {
            r.push(Some(count));
            count = count + 1;
        }
        i += 1;
    }
    r
}

/// The number of leading statically sized metas.
pub fn static_prefix_len(metas: &[TypeMeta]) -> (r: usize)
    ensures
        r <= metas@.len(),
        forall|i: int| 0 <= i < r ==> #[trigger] metas@[i] is Static,
        r < metas@.len() ==> metas@[r as int] is Dynamic,
{
    let mut i: usize = 0;
    while i < metas.len()
        invariant
            0 <= i <= metas@.len(),
            forall|j: int| 0 <= j < i ==> #[trigger] metas@[j] is Static,
        decreases metas.len() - i,
    {
        match metas[i] {
            TypeMeta::Static { .. } => {},
            TypeMeta::Dynamic => {
                return i;
            },
        }
        i += 1;
    }
    i
}

/// The total static size of `metas`, counting a dynamic one as nothing.
pub open spec fn static_sum(metas: Seq<TypeMeta>) -> nat
    decreases metas.len(),
{
    if metas.len() == 0 {
        0
    } else {
        static_sum(metas.drop_last()) + match metas.last() {
            TypeMeta::Static { size, .. } => size as nat,
            TypeMeta::Dynamic => 0nat,
        }
    }
}

/// Whether every meta is zero-copy.
pub open spec fn all_zero_copy(metas: Seq<TypeMeta>) -> bool {
    forall|i: int| 0 <= i < metas.len() ==> #[trigger] metas[i] matches TypeMeta::Static {
        zero_copy: true,
        ..
    }
}

/// The summed size of the leading statically sized metas; none when it does not fit in a
/// `usize`.
pub fn static_prefix_size(metas: &[TypeMeta]) -> (r: Option<usize>)
    ensures
        ({
            let prefix = metas@.take(static_prefix_len_spec(metas@) as int);
            if static_sum(prefix) <= usize::MAX {
                r == Some(static_sum(prefix) as usize)
            } else {
                r is None
            }
        }),
{
    let n = static_prefix_len(metas);
    proof {
        lemma_static_prefix_len_spec(metas@, n as nat);
    }
    let r = sum_static(metas, n);
    r
}

/// The number of leading statically sized metas, as a spec function.
pub open spec fn static_prefix_len_spec(metas: Seq<TypeMeta>) -> nat
    decreases metas.len(),
{
    if metas.len() == 0 {
        0
    } else if metas[0] is Dynamic {
        0
    } else {
        1 + static_prefix_len_spec(metas.drop_first())
    }
}

proof fn lemma_static_prefix_len_spec(metas: Seq<TypeMeta>, n: nat)
    requires
        n <= metas.len(),
        forall|i: int| 0 <= i < n ==> #[trigger] metas[i] is Static,
        n < metas.len() ==> metas[n as int] is Dynamic,
    ensures
        static_prefix_len_spec(metas) == n,
    decreases metas.len(),
{
    if metas.len() > 0 && n > 0 {
        assert forall|i: int| 0 <= i < n - 1 implies #[trigger] metas.drop_first()[i] is Static by {
            assert(metas.drop_first()[i] == metas[i + 1]);
        }
        if n - 1 < metas.drop_first().len() {
            assert(metas.drop_first()[n - 1] == metas[n as int]);
        }
        lemma_static_prefix_len_spec(metas.drop_first(), (n - 1) as nat);
    }
}

/// The summed static size of the first `n` metas; none when it does not fit in a `usize`.
fn sum_static(metas: &[TypeMeta], n: usize) -> (r: Option<usize>)
    requires
        n <= metas@.len(),
    ensures
        static_sum(metas@.take(n as int)) <= usize::MAX ==> r == Some(
            static_sum(metas@.take(n as int)) as usize,
        ),
        static_sum(metas@.take(n as int)) > usize::MAX ==> r is None,
{
    let mut total: usize = 0;
    let mut i: usize = 0;
    assert(metas@.take(0) =~= Seq::<TypeMeta>::empty());
    while i < n
        invariant
            0 <= i <= n <= metas@.len(),
            total == static_sum(metas@.take(i as int)),
        decreases n - i,
    {
        assert(metas@.take(i + 1).drop_last() =~= metas@.take(i as int));
        assert(metas@.take(i + 1).last() == metas@[i as int]);
        let add: usize = match metas[i] {
            TypeMeta::Static { size, .. } => size,
            TypeMeta::Dynamic => 0,
        };
        match total.checked_add(add) {
            Some(t) => {
                total = t;
            },
            None => {
                proof {
                    lemma_static_sum_monotone(metas@, i as int + 1, n as int);
                }
                return None;
            },
        }
        i += 1;
    }
    Some(total)
}

proof fn lemma_static_sum_monotone(metas: Seq<TypeMeta>, j: int, k: int)
    requires
        0 <= j <= k <= metas.len(),
    ensures
        static_sum(metas.take(j)) <= static_sum(metas.take(k)),
    decreases k - j,
{
    if j < k {
        assert(metas.take(k).drop_last() =~= metas.take(k - 1));
        lemma_static_sum_monotone(metas, j, k - 1);
    }
}

/// What is known of the size of fields written one after another: statically sized, with
/// the summed size, when all of them are and the sum fits in a `usize` (zero-copy when all
/// of them are); dynamic otherwise.
pub fn join_types(metas: &[TypeMeta]) -> (r: TypeMeta)
    ensures
        ({
            let all_static = forall|i: int| 0 <= i < metas@.len() ==> #[trigger] metas@[i] is Static;
            if all_static && static_sum(metas@) <= usize::MAX {
                r == TypeMeta::Static {
                    size: static_sum(metas@) as usize,
                    zero_copy: all_zero_copy(metas@),
                }
            } else {
                r == TypeMeta::Dynamic
            }
        }),
{
    let n = static_prefix_len(metas);
    if n < metas.len() {
        return TypeMeta::Dynamic;
    }
    assert(metas@.take(n as int) =~= metas@);
    match sum_static(metas, n) {
        None => TypeMeta::Dynamic,
        Some(size) => {
            let mut zero_copy = true;
            let mut i: usize = 0;
            while i < metas.len()
                invariant
                    0 <= i <= metas@.len(),
                    zero_copy == (forall|j: int| 0 <= j < i ==> #[trigger] metas@[j] matches TypeMeta::Static {
                        zero_copy: true,
                        ..
                    }),
                decreases metas.len() - i,
            {
                match metas[i] {
                    TypeMeta::Static { zero_copy: true, .. } => {},
                    _ => {
                        zero_copy = false;
                    },
                }
                i += 1;
            }
            TypeMeta::Static { size, zero_copy }
        },
    }
}

/// What is known of the size of an enum from what is known of each variant's (tag and fields
/// together): statically sized when every variant is, with one and the same size; dynamic
/// otherwise. An enum is never zero-copy.
pub fn join_variants(variants: &[TypeMeta]) -> (r: TypeMeta)
    ensures
        ({
            let same_static = variants@.len() > 0 && forall|i: int|
                0 <= i < variants@.len() ==> (#[trigger] variants@[i] matches TypeMeta::Static {
                    size,
                    ..
                } && size == variants@[0]->Static_size);
            if same_static {
                r == TypeMeta::Static { size: variants@[0]->Static_size, zero_copy: false }
            } else {
                r == TypeMeta::Dynamic
            }
        }),
{
    if variants.len() == 0 {
        return TypeMeta::Dynamic;
    }
    let first = match variants[0] {
        TypeMeta::Static { size, .. } => size,
        TypeMeta::Dynamic => {
            return TypeMeta::Dynamic;
        },
    };
    let mut i: usize = 1;
    while i < variants.len()
        invariant
            1 <= i <= variants@.len(),
            variants@[0] matches TypeMeta::Static { size, .. } && size == first,
            forall|j: int|
                0 <= j < i ==> (#[trigger] variants@[j] matches TypeMeta::Static { size, .. }
                    && size == first),
        decreases variants.len() - i,
    {
        match variants[i] {
            TypeMeta::Static { size, .. } => {
                if size != first {
                    return TypeMeta::Dynamic;
                }
            },
            TypeMeta::Dynamic => {
                return TypeMeta::Dynamic;
            },
        }
        i += 1;
    }
    TypeMeta::Static { size: first, zero_copy: false }
}

/// Whether the field at wire position `position` is read or written through the trusted
/// window over the statically sized prefix of `prefix_len` fields.
pub fn in_static_prefix(position: usize, prefix_len: usize) -> (r: bool)
    ensures
        r == (position < prefix_len),
{
    position < prefix_len
}

/// The number of fields in `fields` that reach the wire and are read with the context.
pub open spec fn count_contextual(fields: Seq<FieldPlan>) -> nat
    decreases fields.len(),
{
    if fields.len() == 0 {
        0
    } else {
        count_contextual(fields.drop_last()) + if !fields.last().skip && fields.last().context {
            1nat
        } else {
            0nat
        }
    }
}

/// Whether some read path hands the context to more than one field, so that the context
/// must be `Copy`. A struct has one read path; an enum has one per variant, and different
/// variants never both run.
pub fn context_requires_copy(paths: &Vec<Vec<FieldPlan>>) -> (r: bool)
    ensures
        r == exists|p: int| 0 <= p < paths@.len() && count_contextual(#[trigger] paths@[p]@) >= 2,
{
    let mut p: usize = 0;
    while p < paths.len()
        invariant
            0 <= p <= paths@.len(),
            forall|q: int| 0 <= q < p ==> count_contextual(#[trigger] paths@[q]@) < 2,
        decreases paths.len() - p,
    {
        let fields = &paths[p];
        let mut count: usize = 0;
        let mut i: usize = 0;
        assert(fields@.take(0) =~= Seq::<FieldPlan>::empty());
        while i < fields.len()
            invariant
                0 <= i <= fields@.len(),
                count == count_contextual(fields@.take(i as int)),
                count < 2,
                p < paths@.len(),
                fields@ == paths@[p as int]@,
            decreases fields.len() - i,
        {
            assert(fields@.take(i + 1).drop_last() =~= fields@.take(i as int));
            if !fields[i].skip && fields[i].context {
                count = count + 1;
                if count >= 2 {
                    proof {
                        lemma_count_contextual_monotone(fields@, i as int + 1, fields@.len() as int);
                        assert(fields@.take(fields@.len() as int) =~= fields@);
                        assert(count_contextual(paths@[p as int]@) >= 2);
                    }
                    return true;
                }
            }
            i += 1;
        }
        assert(fields@.take(fields@.len() as int) =~= fields@);
        p += 1;
    }
    false
}

proof fn lemma_count_contextual_monotone(fields: Seq<FieldPlan>, j: int, k: int)
    requires
        0 <= j <= k <= fields.len(),
    ensures
        count_contextual(fields.take(j)) <= count_contextual(fields.take(k)),
    decreases k - j,
{
    if j < k {
        assert(fields.take(k).drop_last() =~= fields.take(k - 1));
        lemma_count_contextual_monotone(fields, j, k - 1);
    }
}

/// How a lifetime of the type is used.
#[derive(Clone, Copy, Debug, PartialEq, Eq, Structural)]
pub struct LifetimeUse {
    /// The context type mentions it.
    pub in_context: bool,
    /// Some field that reaches the wire and is not read with the context mentions it.
    pub in_ordinary_field: bool,
}

/// Which of the type's lifetimes the input lifetime `'de` must outlive.
///
/// Ordinary fields may borrow from the input, so `'de` outlives every lifetime they use.
/// A lifetime that only the context supplies is left alone. Without a context, every
/// lifetime is bounded.
pub fn lifetimes_outlived_by_input(lifetimes: &Vec<LifetimeUse>, has_context: bool) -> (r: Vec<bool>)
    ensures
        r@.len() == lifetimes@.len(),
        forall|i: int|
            0 <= i < lifetimes@.len() ==> #[trigger] r@[i] == (!has_context
                || !lifetimes@[i].in_context || lifetimes@[i].in_ordinary_field),
{
    let mut r: Vec<bool> = Vec::new();
    let mut i: usize = 0;
    while i < lifetimes.len()
        invariant
            0 <= i <= lifetimes@.len(),
            r@.len() == i,
            forall|j: int|
                0 <= j < i ==> #[trigger] r@[j] == (!has_context || !lifetimes@[j].in_context
                    || lifetimes@[j].in_ordinary_field),
        decreases lifetimes.len() - i,
    {
        let l = lifetimes[i];
        r.push(!has_context || !l.in_context || l.in_ordinary_field);
        i += 1;
    }
    r
}

/// Whether a struct gets a `ZeroCopy` impl: its representation allows it, and it has no
/// type parameters, no lifetimes and no context.
pub fn zero_copy_eligible(
    repr_eligible: bool,
    has_type_params: bool,
    has_lifetimes: bool,
    has_context: bool,
) -> (r: bool)
    ensures
        r == (repr_eligible && !has_type_params && !has_lifetimes && !has_context),
{
    repr_eligible && !has_type_params && !has_lifetimes && !has_context
}

} // verus!
