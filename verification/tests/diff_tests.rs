use parcel_differ::diff::diff_param;
use parcel_differ::diff::diff_param_list;
use parcel_differ::diff::diff_param_struct;
use parcel_differ::param::Hash40;
use parcel_differ::param::ParamKind;
use parcel_differ::param::ParamList;
use parcel_differ::param::ParamStruct;

/// Structural equality over parameter trees, for checking expected
/// diff outputs.
fn kind_eq(a: &ParamKind, b: &ParamKind) -> bool {
    match (a, b) {
        (ParamKind::Bool(x), ParamKind::Bool(y)) => x == y,
        (ParamKind::I8(x), ParamKind::I8(y)) => x == y,
        (ParamKind::U8(x), ParamKind::U8(y)) => x == y,
        (ParamKind::I16(x), ParamKind::I16(y)) => x == y,
        (ParamKind::U16(x), ParamKind::U16(y)) => x == y,
        (ParamKind::I32(x), ParamKind::I32(y)) => x == y,
        (ParamKind::U32(x), ParamKind::U32(y)) => x == y,
        (ParamKind::Float(x), ParamKind::Float(y)) => x == y,
        (ParamKind::Hash(x), ParamKind::Hash(y)) => x == y,
        (ParamKind::Str(x), ParamKind::Str(y)) => x == y,
        (ParamKind::List(x), ParamKind::List(y)) => list_eq(x, y),
        (ParamKind::Struct(x), ParamKind::Struct(y)) => struct_eq(x, y),
        _ => false,
    }
}

fn list_eq(a: &ParamList, b: &ParamList) -> bool {
    a.0.len() == b.0.len() && a.0.iter().zip(b.0.iter()).all(|(x, y)| kind_eq(x, y))
}

fn struct_eq(a: &ParamStruct, b: &ParamStruct) -> bool {
    a.0.len() == b.0.len()
        && a.0.iter().zip(b.0.iter()).all(|((ha, pa), (hb, pb))| ha == hb && kind_eq(pa, pb))
}

fn deep_clone(p: &ParamKind) -> ParamKind {
    match p {
        ParamKind::Bool(x) => ParamKind::Bool(*x),
        ParamKind::I8(x) => ParamKind::I8(*x),
        ParamKind::U8(x) => ParamKind::U8(*x),
        ParamKind::I16(x) => ParamKind::I16(*x),
        ParamKind::U16(x) => ParamKind::U16(*x),
        ParamKind::I32(x) => ParamKind::I32(*x),
        ParamKind::U32(x) => ParamKind::U32(*x),
        ParamKind::Float(x) => ParamKind::Float(*x),
        ParamKind::Hash(x) => ParamKind::Hash(*x),
        ParamKind::Str(x) => ParamKind::Str(x.clone()),
        ParamKind::List(l) => ParamKind::List(ParamList(l.0.iter().map(deep_clone).collect())),
        ParamKind::Struct(s) => ParamKind::Struct(
            ParamStruct(s.0.iter().map(|(h, p)| (*h, deep_clone(p))).collect()),
        ),
    }
}

#[test]
fn equal_primitives_give_none() {
    let cases = vec![
        ParamKind::Bool(true),
        ParamKind::I8(-3),
        ParamKind::U8(7),
        ParamKind::I16(-300),
        ParamKind::U16(300),
        ParamKind::I32(-70000),
        ParamKind::U32(70000),
        ParamKind::Float(1078530011),
        ParamKind::Hash(Hash40(0x1234567890)),
        ParamKind::Str(String::from("same")),
    ];
    for c in &cases {
        assert!(diff_param(c, c).is_none());
    }
}

#[test]
fn changed_primitive_surfaces_new_value() {
    let pairs = vec![
        (ParamKind::Bool(false), ParamKind::Bool(true)),
        (ParamKind::I8(1), ParamKind::I8(2)),
        (ParamKind::U8(1), ParamKind::U8(2)),
        (ParamKind::I16(1), ParamKind::I16(2)),
        (ParamKind::U16(1), ParamKind::U16(2)),
        (ParamKind::I32(1), ParamKind::I32(2)),
        (ParamKind::U32(1), ParamKind::U32(2)),
        (ParamKind::Float(0), ParamKind::Float(1065353216)),
        (ParamKind::Hash(Hash40(1)), ParamKind::Hash(Hash40(2))),
        (
            ParamKind::Str(String::from("before")),
            ParamKind::Str(String::from("after")),
        ),
    ];
    for (old_kind, new_kind) in &pairs {
        let d = diff_param(old_kind, new_kind).expect("a changed primitive must diff");
        assert!(kind_eq(&d, new_kind));
    }
}

#[test]
fn variant_mismatch_suppresses_diff() {
    assert!(diff_param(&ParamKind::I32(5), &ParamKind::Str(String::from("5"))).is_none());
    assert!(diff_param(&ParamKind::I8(5), &ParamKind::I16(5)).is_none());
    assert!(diff_param(&ParamKind::U8(5), &ParamKind::I8(5)).is_none());
    assert!(
        diff_param(
            &ParamKind::List(ParamList(vec![ParamKind::I32(1)])),
            &ParamKind::I32(1),
        )
        .is_none()
    );
    assert!(
        diff_param(
            &ParamKind::Struct(ParamStruct(vec![(Hash40(1), ParamKind::I32(1))])),
            &ParamKind::List(ParamList(vec![ParamKind::I32(1)])),
        )
        .is_none()
    );
}

#[test]
fn sentinel_for_unchanged_i8_is_bool_false() {
    let old_list = ParamList(vec![ParamKind::I8(4), ParamKind::I32(1)]);
    let new_list = ParamList(vec![ParamKind::I8(4), ParamKind::I32(2)]);
    let d = diff_param_list(&old_list, &new_list).expect("one position changed");
    assert_eq!(d.0.len(), 2);
    assert!(kind_eq(&d.0[0], &ParamKind::Bool(false)));
    assert!(kind_eq(&d.0[1], &ParamKind::I32(2)));
}

#[test]
fn sentinel_for_other_unchanged_variants_is_i8_zero() {
    let old_list = ParamList(vec![
        ParamKind::U16(9),
        ParamKind::Str(String::from("keep")),
        ParamKind::Bool(true),
        ParamKind::I8(0),
    ]);
    let new_list = ParamList(vec![
        ParamKind::U16(9),
        ParamKind::Str(String::from("keep")),
        ParamKind::Bool(true),
        ParamKind::I8(1),
    ]);
    let d = diff_param_list(&old_list, &new_list).expect("one position changed");
    assert_eq!(d.0.len(), 4);
    assert!(kind_eq(&d.0[0], &ParamKind::I8(0)));
    assert!(kind_eq(&d.0[1], &ParamKind::I8(0)));
    assert!(kind_eq(&d.0[2], &ParamKind::I8(0)));
    assert!(kind_eq(&d.0[3], &ParamKind::I8(1)));
}

#[test]
fn unchanged_list_gives_none() {
    let old_list = ParamList(vec![ParamKind::I8(4), ParamKind::I32(1)]);
    let new_list = ParamList(vec![ParamKind::I8(4), ParamKind::I32(1)]);
    assert!(diff_param_list(&old_list, &new_list).is_none());
}

#[test]
fn truncated_positions_receive_sentinel() {
    let old_list = ParamList(vec![ParamKind::I32(1), ParamKind::I32(2), ParamKind::I8(3)]);
    let new_list = ParamList(vec![ParamKind::I32(5)]);
    let d = diff_param_list(&old_list, &new_list).expect("position zero changed");
    assert_eq!(d.0.len(), 3);
    assert!(kind_eq(&d.0[0], &ParamKind::I32(5)));
    assert!(kind_eq(&d.0[1], &ParamKind::I8(0)));
    assert!(kind_eq(&d.0[2], &ParamKind::Bool(false)));
}

#[test]
fn truncation_alone_is_not_a_change() {
    let old_list = ParamList(vec![ParamKind::I32(1), ParamKind::I32(2)]);
    let new_list = ParamList(vec![ParamKind::I32(1)]);
    assert!(diff_param_list(&old_list, &new_list).is_none());
}

#[test]
fn extension_of_new_list_is_ignored() {
    let old_list = ParamList(vec![ParamKind::I32(1)]);
    let new_equal = ParamList(vec![ParamKind::I32(1), ParamKind::I32(99)]);
    assert!(diff_param_list(&old_list, &new_equal).is_none());

    let new_changed = ParamList(vec![ParamKind::I32(2), ParamKind::I32(99)]);
    let d = diff_param_list(&old_list, &new_changed).expect("position zero changed");
    assert_eq!(d.0.len(), 1);
    assert!(kind_eq(&d.0[0], &ParamKind::I32(2)));
}

#[test]
fn empty_old_list_gives_none() {
    let old_list = ParamList(vec![]);
    let new_list = ParamList(vec![ParamKind::I32(1)]);
    assert!(diff_param_list(&old_list, &new_list).is_none());
}

#[test]
fn record_diff_is_sparse_and_ordered() {
    let old_struct = ParamStruct(vec![
        (Hash40(1), ParamKind::I32(10)),
        (Hash40(2), ParamKind::I32(20)),
        (Hash40(3), ParamKind::I32(30)),
        (Hash40(4), ParamKind::I32(40)),
    ]);
    let new_struct = ParamStruct(vec![
        // reordered on purpose: lookup is by key, not position
        (Hash40(3), ParamKind::I32(33)),
        (Hash40(1), ParamKind::I32(11)),
        (Hash40(2), ParamKind::I32(20)),
        // Hash40(4) is absent from the new struct: dropped
        (Hash40(5), ParamKind::I32(50)), // only in new: never visited
    ]);
    let d = diff_param_struct(&old_struct, &new_struct).expect("two keys changed");
    assert_eq!(d.0.len(), 2);
    assert_eq!(d.0[0].0, Hash40(1));
    assert!(kind_eq(&d.0[0].1, &ParamKind::I32(11)));
    assert_eq!(d.0[1].0, Hash40(3));
    assert!(kind_eq(&d.0[1].1, &ParamKind::I32(33)));
}

#[test]
fn duplicate_key_lookup_takes_first_match() {
    let old_struct = ParamStruct(vec![(Hash40(1), ParamKind::I32(10))]);
    let new_struct = ParamStruct(vec![
        (Hash40(1), ParamKind::I32(11)),
        (Hash40(1), ParamKind::I32(10)),
    ]);
    let d = diff_param_struct(&old_struct, &new_struct).expect("first match differs");
    assert_eq!(d.0.len(), 1);
    assert!(kind_eq(&d.0[0].1, &ParamKind::I32(11)));
}

#[test]
fn duplicate_keys_can_make_a_struct_differ_from_itself() {
    // A malformed struct that holds one key twice: the second field's
    // value never wins a lookup, so even a self-diff reports a change.
    let root = ParamStruct(vec![
        (Hash40(1), ParamKind::I32(1)),
        (Hash40(1), ParamKind::I32(2)),
    ]);
    let copy = ParamStruct(root.0.iter().map(|(h, p)| (*h, deep_clone(p))).collect());
    let d = diff_param_struct(&root, &copy).expect("the shadowed key self-diffs");
    assert_eq!(d.0.len(), 1);
    assert_eq!(d.0[0].0, Hash40(1));
    assert!(kind_eq(&d.0[0].1, &ParamKind::I32(1)));
}

#[test]
fn end_to_end_example() {
    let k1 = Hash40(0x101);
    let k2 = Hash40(0x202);
    let old_root = ParamStruct(vec![
        (k1, ParamKind::I32(1)),
        (
            k2,
            ParamKind::List(ParamList(vec![ParamKind::I32(10), ParamKind::I32(20)])),
        ),
    ]);
    let new_root = ParamStruct(vec![
        (k1, ParamKind::I32(2)),
        (
            k2,
            ParamKind::List(ParamList(vec![ParamKind::I32(10), ParamKind::I32(99)])),
        ),
    ]);
    let d = diff_param_struct(&old_root, &new_root).expect("both keys changed");
    let expected = ParamStruct(vec![
        (k1, ParamKind::I32(2)),
        (
            k2,
            ParamKind::List(ParamList(vec![ParamKind::I8(0), ParamKind::I32(99)])),
        ),
    ]);
    assert!(struct_eq(&d, &expected));
}

#[test]
fn identical_records_give_no_difference_outcome() {
    let root = ParamStruct(vec![
        (Hash40(7), ParamKind::Str(String::from("text"))),
        (
            Hash40(8),
            ParamKind::Struct(ParamStruct(vec![
                (Hash40(9), ParamKind::Bool(true)),
                (
                    Hash40(10),
                    ParamKind::List(ParamList(vec![ParamKind::Float(1065353216)])),
                ),
            ])),
        ),
    ]);
    let copy = ParamStruct(root.0.iter().map(|(h, p)| (*h, deep_clone(p))).collect());
    assert!(diff_param_struct(&root, &copy).is_none());
}

#[test]
fn nested_struct_change_is_wrapped_in_its_key() {
    let inner_key = Hash40(21);
    let outer_key = Hash40(20);
    let old_root = ParamStruct(vec![(
        outer_key,
        ParamKind::Struct(ParamStruct(vec![(inner_key, ParamKind::U8(1))])),
    )]);
    let new_root = ParamStruct(vec![(
        outer_key,
        ParamKind::Struct(ParamStruct(vec![(inner_key, ParamKind::U8(2))])),
    )]);
    let d = diff_param_struct(&old_root, &new_root).expect("the nested key changed");
    let expected = ParamStruct(vec![(
        outer_key,
        ParamKind::Struct(ParamStruct(vec![(inner_key, ParamKind::U8(2))])),
    )]);
    assert!(struct_eq(&d, &expected));
}

#[test]
fn empty_struct_diffs_give_none() {
    let empty = ParamStruct(vec![]);
    let full = ParamStruct(vec![(Hash40(1), ParamKind::I32(1))]);
    assert!(diff_param_struct(&empty, &full).is_none());
    assert!(diff_param_struct(&full, &empty).is_none());
}
