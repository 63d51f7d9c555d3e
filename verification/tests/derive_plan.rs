use wincode::derive_plan::{
    context_requires_copy, in_static_prefix, join_types, join_variants, lifetimes_outlived_by_input,
    static_prefix_len, static_prefix_size, wire_positions, zero_copy_eligible, FieldPlan,
    LifetimeUse,
};
use wincode::TypeMeta;

fn field(skip: bool, context: bool) -> FieldPlan {
    FieldPlan { skip, context }
}

fn fixed(size: usize) -> TypeMeta {
    TypeMeta::Static { size, zero_copy: false }
}

#[test]
fn skipped_fields_take_no_wire_position() {
    let fields = vec![field(false, false), field(true, false), field(false, false), field(true, true)];
    assert_eq!(wire_positions(&fields), vec![Some(0), None, Some(1), None]);
    assert_eq!(wire_positions(&vec![]), Vec::<Option<usize>>::new());
}

#[test]
fn static_prefix_stops_at_first_dynamic_field() {
    let metas = [fixed(2), fixed(8), TypeMeta::Dynamic, fixed(4)];
    assert_eq!(static_prefix_len(&metas), 2);
    assert_eq!(static_prefix_size(&metas), Some(10));
    assert!(in_static_prefix(1, 2));
    assert!(!in_static_prefix(2, 2));
    assert_eq!(static_prefix_len(&[TypeMeta::Dynamic]), 0);
    assert_eq!(static_prefix_size(&[TypeMeta::Dynamic, fixed(3)]), Some(0));
    assert_eq!(static_prefix_size(&[fixed(usize::MAX), fixed(1)]), None);
}

#[test]
fn joined_sizes() {
    assert_eq!(
        join_types(&[fixed(1), fixed(4)]),
        TypeMeta::Static { size: 5, zero_copy: false }
    );
    assert_eq!(
        join_types(&[TypeMeta::Static { size: 1, zero_copy: true }]),
        TypeMeta::Static { size: 1, zero_copy: true }
    );
    assert_eq!(join_types(&[]), TypeMeta::Static { size: 0, zero_copy: true });
    assert_eq!(join_types(&[fixed(1), TypeMeta::Dynamic]), TypeMeta::Dynamic);
    assert_eq!(join_types(&[fixed(usize::MAX), fixed(1)]), TypeMeta::Dynamic);
}

#[test]
fn context_is_copied_only_when_one_path_uses_it_twice() {
    let one_each = vec![vec![field(false, true)], vec![field(false, true), field(false, false)]];
    assert!(!context_requires_copy(&one_each));
    let skipped = vec![vec![field(false, true), field(true, true)]];
    assert!(!context_requires_copy(&skipped));
    let twice = vec![vec![field(false, false)], vec![field(false, true), field(false, true)]];
    assert!(context_requires_copy(&twice));
}

#[test]
fn input_lifetime_outlives_what_fields_borrow() {
    let uses = vec![
        LifetimeUse { in_context: true, in_ordinary_field: false },
        LifetimeUse { in_context: true, in_ordinary_field: true },
        LifetimeUse { in_context: false, in_ordinary_field: false },
    ];
    assert_eq!(lifetimes_outlived_by_input(&uses, true), vec![false, true, true]);
    assert_eq!(lifetimes_outlived_by_input(&uses, false), vec![true, true, true]);
}

#[test]
fn zero_copy_needs_a_plain_struct() {
    assert!(zero_copy_eligible(true, false, false, false));
    assert!(!zero_copy_eligible(true, true, false, false));
    assert!(!zero_copy_eligible(true, false, true, false));
    assert!(!zero_copy_eligible(true, false, false, true));
    assert!(!zero_copy_eligible(false, false, false, false));
}

#[test]
fn enum_size_is_static_only_when_all_variants_agree() {
    assert_eq!(
        join_variants(&[fixed(5), fixed(5)]),
        TypeMeta::Static { size: 5, zero_copy: false }
    );
    assert_eq!(join_variants(&[fixed(5), fixed(4)]), TypeMeta::Dynamic);
    assert_eq!(join_variants(&[fixed(5), TypeMeta::Dynamic]), TypeMeta::Dynamic);
    assert_eq!(join_variants(&[]), TypeMeta::Dynamic);
}
