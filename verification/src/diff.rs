//! The structural differ over parameter trees.
//!
//! `diff_param` compares two trees node by node: a changed primitive
//! surfaces its new payload, containers are diffed recursively, and a
//! pair of mismatched variants is deliberately treated as "not
//! comparable" and reports no difference.  A list diff keeps one entry
//! per position of the old list, filling unchanged positions with a
//! sentinel whose variant can never collide with a genuine diff; a
//! struct diff is sparse and keeps only the changed keys, in the old
//! struct's order.

use vstd::prelude::*;

use crate::param::Hash40;
use crate::param::ParamKind;
use crate::param::ParamList;
use crate::param::ParamStruct;
use crate::param::ParamView;
use crate::param::lemma_view_elems;
use crate::param::lemma_view_fields;
use crate::param::view_elems;
use crate::param::view_fields;
use crate::param::view_kind;

verus! {

/// The placeholder emitted at an unchanged list position: the boolean
/// variant where the old element is the 8-bit signed variant, and the
/// 8-bit signed variant with value zero everywhere else, so that its
/// variant always differs from the variant of a genuine diff at that
/// position.
pub open spec fn spec_sentinel(old_elem: ParamView) -> ParamView {
    if old_elem is I8 {
        ParamView::Bool(false)
    } else {
        ParamView::I8(0)
    }
}

/// The diff of two tree nodes: `None` when they are variant- and
/// payload-equal (or their variants are not comparable), `Some` of the
/// changed subtree otherwise.
pub open spec fn spec_diff_value(old_v: ParamView, new_v: ParamView) -> Option<ParamView>
    decreases old_v, 2int,
{
    match (old_v, new_v) {
        (ParamView::List(o), ParamView::List(n)) => match spec_diff_list(o, n) {
            Option::Some(l) => Option::Some(ParamView::List(l)),
            Option::None => Option::None,
        },
        (ParamView::Struct(o), ParamView::Struct(n)) => match spec_diff_record(o, n) {
            Option::Some(r) => Option::Some(ParamView::Struct(r)),
            Option::None => Option::None,
        },
        (ParamView::Bool(a), ParamView::Bool(b)) => if a != b {
            Option::Some(ParamView::Bool(b))
        } else {
            Option::None
        },
        (ParamView::I8(a), ParamView::I8(b)) => if a != b {
            Option::Some(ParamView::I8(b))
        } else {
            Option::None
        },
        (ParamView::U8(a), ParamView::U8(b)) => if a != b {
            Option::Some(ParamView::U8(b))
        } else {
            Option::None
        },
        (ParamView::I16(a), ParamView::I16(b)) => if a != b {
            Option::Some(ParamView::I16(b))
        } else {
            Option::None
        },
        (ParamView::U16(a), ParamView::U16(b)) => if a != b {
            Option::Some(ParamView::U16(b))
        } else {
            Option::None
        },
        (ParamView::I32(a), ParamView::I32(b)) => if a != b {
            Option::Some(ParamView::I32(b))
        } else {
            Option::None
        },
        (ParamView::U32(a), ParamView::U32(b)) => if a != b {
            Option::Some(ParamView::U32(b))
        } else {
            Option::None
        },
        (ParamView::Float(a), ParamView::Float(b)) => if a != b {
            Option::Some(ParamView::Float(b))
        } else {
            Option::None
        },
        (ParamView::Hash(a), ParamView::Hash(b)) => if a != b {
            Option::Some(ParamView::Hash(b))
        } else {
            Option::None
        },
        (ParamView::Str(a), ParamView::Str(b)) => if a != b {
            Option::Some(ParamView::Str(b))
        } else {
            Option::None
        },
        _ => Option::None,
    }
}

/// The diff of two lists: `Some` of one entry per old position exactly
/// when some position holds a genuine diff, `None` otherwise.
pub open spec fn spec_diff_list(o: Seq<ParamView>, n: Seq<ParamView>) -> Option<Seq<ParamView>>
    decreases o, 1int,
{
    if spec_list_changed(o, n) {
        Option::Some(spec_list_entries(o, n))
    } else {
        Option::None
    }
}

/// Whether some old position carries a genuine diff against the new
/// list: position `i` does when `i` is within both lists and the
/// element diff is `Some`.
pub open spec fn spec_list_changed(o: Seq<ParamView>, n: Seq<ParamView>) -> bool
    decreases o, 0int,
{
    if o.len() == 0 {
        false
    } else {
        spec_list_changed(o.subrange(0, o.len() - 1), n) || (o.len() - 1 < n.len()
            && spec_diff_value(o[o.len() - 1], n[o.len() - 1]) is Some)
    }
}

/// One output entry per old position: the element diff where there is
/// one, the sentinel otherwise (in particular wherever the new list is
/// too short).  Elements of the new list beyond the old length are
/// never read.
pub open spec fn spec_list_entries(o: Seq<ParamView>, n: Seq<ParamView>) -> Seq<ParamView>
    decreases o, 0int,
{
    if o.len() == 0 {
        Seq::empty()
    } else {
        let last = o[o.len() - 1];
        let entry = if o.len() - 1 < n.len() && spec_diff_value(last, n[o.len() - 1]) is Some {
            spec_diff_value(last, n[o.len() - 1])->Some_0
        } else {
            spec_sentinel(last)
        };
        spec_list_entries(o.subrange(0, o.len() - 1), n).push(entry)
    }
}

/// The diff of two structs: `Some` of the changed entries exactly when
/// there is at least one, `None` otherwise.
pub open spec fn spec_diff_record(
    o: Seq<(Hash40, ParamView)>,
    n: Seq<(Hash40, ParamView)>,
) -> Option<Seq<(Hash40, ParamView)>>
    decreases o, 1int,
{
    let entries = spec_record_entries(o, n);
    if entries.len() > 0 {
        Option::Some(entries)
    } else {
        Option::None
    }
}

/// The changed entries of a struct diff, in the old struct's order: one
/// entry `(key, d)` for each old field whose key is found in the new
/// struct with an element diff `d`; keys absent from the new struct, or
/// unchanged, leave no entry.
pub open spec fn spec_record_entries(
    o: Seq<(Hash40, ParamView)>,
    n: Seq<(Hash40, ParamView)>,
) -> Seq<(Hash40, ParamView)>
    decreases o, 0int,
{
    if o.len() == 0 {
        Seq::empty()
    } else {
        let rest = spec_record_entries(o.subrange(0, o.len() - 1), n);
        let last = o[o.len() - 1];
        match spec_record_lookup(n, last.0) {
            Option::Some(nv) => match spec_diff_value(last.1, nv) {
                Option::Some(d) => rest.push((last.0, d)),
                Option::None => rest,
            },
            Option::None => rest,
        }
    }
}

/// The value of the first field with the given key, if any: first match
/// wins where a malformed struct holds a key twice.
pub open spec fn spec_record_lookup(s: Seq<(Hash40, ParamView)>, key: Hash40) -> Option<ParamView>
    decreases s.len(),
{
    if s.len() == 0 {
        Option::None
    } else if s[0].0 == key {
        Option::Some(s[0].1)
    } else {
        spec_record_lookup(s.subrange(1, s.len() as int), key)
    }
}

/// Whether one old field leaves an entry in the struct diff: its key
/// must look up in the new struct to a value whose diff is genuine.
pub open spec fn record_entry_changed(
    p: (Hash40, ParamView),
    n: Seq<(Hash40, ParamView)>,
) -> bool {
    match spec_record_lookup(n, p.0) {
        Option::Some(nv) => spec_diff_value(p.1, nv) is Some,
        Option::None => false,
    }
}

/// The entry one changed old field leaves in the struct diff: its key
/// together with the diff of its value against the looked-up new one.
pub open spec fn record_entry_diff(
    p: (Hash40, ParamView),
    n: Seq<(Hash40, ParamView)>,
) -> (Hash40, ParamView) {
    (p.0, spec_diff_value(p.1, spec_record_lookup(n, p.0)->Some_0)->Some_0)
}

/// The changed old fields, in their old order, each mapped to the
/// entry it leaves in the struct diff.
pub open spec fn spec_changed_fields(
    o: Seq<(Hash40, ParamView)>,
    n: Seq<(Hash40, ParamView)>,
) -> Seq<(Hash40, ParamView)> {
    o.filter(|p: (Hash40, ParamView)| record_entry_changed(p, n)).map_values(
        |p: (Hash40, ParamView)| record_entry_diff(p, n),
    )
}

/// The output entry a list diff owes at one position: the element diff
/// where the position is within both lists and the elements differ,
/// the sentinel otherwise.
pub open spec fn spec_list_entry_at(o: Seq<ParamView>, n: Seq<ParamView>, i: int) -> ParamView {
    if i < n.len() && spec_diff_value(o[i], n[i]) is Some {
        spec_diff_value(o[i], n[i])->Some_0
    } else {
        spec_sentinel(o[i])
    }
}

/// A list diff holds one entry per old position, each the entry owed at
/// its position.
pub proof fn lemma_list_entries(o: Seq<ParamView>, n: Seq<ParamView>)
    ensures
        spec_list_entries(o, n).len() == o.len(),
        forall|i: int| 0 <= i < o.len() ==> spec_list_entries(o, n)[i] == spec_list_entry_at(
            o,
            n,
            i,
        ),
    decreases o.len(),
{
    if o.len() > 0 {
        let sub = o.subrange(0, o.len() - 1);
        lemma_list_entries(sub, n);
        let last = o[o.len() - 1];
        let entry = if o.len() - 1 < n.len() && spec_diff_value(last, n[o.len() - 1]) is Some {
            spec_diff_value(last, n[o.len() - 1])->Some_0
        } else {
            spec_sentinel(last)
        };
        assert(spec_list_entries(o, n) == spec_list_entries(sub, n).push(entry));
        assert forall|i: int| 0 <= i < o.len() implies spec_list_entries(o, n)[i]
            == spec_list_entry_at(o, n, i) by {
            if i < o.len() - 1 {
                assert(sub[i] == o[i]);
                assert(spec_list_entries(o, n)[i] == spec_list_entries(sub, n)[i]);
                assert(spec_list_entries(sub, n)[i] == spec_list_entry_at(sub, n, i));
                assert(spec_list_entry_at(sub, n, i) == spec_list_entry_at(o, n, i));
            } else {
                assert(spec_list_entries(o, n)[i] == entry);
                assert(entry == spec_list_entry_at(o, n, i));
            }
        }
    }
}

/// A list is reported as changed exactly when some position within
/// both lists carries a genuine element diff.
pub proof fn lemma_list_changed(o: Seq<ParamView>, n: Seq<ParamView>)
    ensures
        spec_list_changed(o, n) <==> exists|i: int|
            0 <= i < o.len() && i < n.len() && spec_diff_value(#[trigger] o[i], n[i]) is Some,
    decreases o.len(),
{
    if o.len() > 0 {
        let sub = o.subrange(0, o.len() - 1);
        lemma_list_changed(sub, n);
        if spec_list_changed(sub, n) {
            let i = choose|i: int|
                0 <= i < sub.len() && i < n.len() && spec_diff_value(
                    #[trigger] sub[i],
                    n[i],
                ) is Some;
            assert(o[i] == sub[i]);
        }
        if spec_list_changed(o, n) && !spec_list_changed(sub, n) {
            assert(spec_diff_value(o[o.len() - 1], n[o.len() - 1]) is Some);
        }
        if exists|i: int|
            0 <= i < o.len() && i < n.len() && spec_diff_value(#[trigger] o[i], n[i]) is Some {
            let i = choose|i: int|
                0 <= i < o.len() && i < n.len() && spec_diff_value(#[trigger] o[i], n[i]) is Some;
            if i < o.len() - 1 {
                assert(sub[i] == o[i]);
            }
        }
    }
}

/// The view of an optional diffed node.
pub open spec fn view_opt_kind(r: Option<ParamKind>) -> Option<ParamView> {
    match r {
        Option::Some(d) => Option::Some(view_kind(d)),
        Option::None => Option::None,
    }
}

/// The view of an optional diffed list.
pub open spec fn view_opt_list(r: Option<ParamList>) -> Option<Seq<ParamView>> {
    match r {
        Option::Some(l) => Option::Some(view_elems(l.0@)),
        Option::None => Option::None,
    }
}

/// The view of an optional diffed struct.
pub open spec fn view_opt_struct(r: Option<ParamStruct>) -> Option<Seq<(Hash40, ParamView)>> {
    match r {
        Option::Some(s) => Option::Some(view_fields(s.0@)),
        Option::None => Option::None,
    }
}

/// Compares two tree nodes and returns `None` when they are equal or
/// their variants are not comparable, and `Some` of the diff tree
/// otherwise: the new payload for a changed primitive, a positional
/// diff for a list, a sparse diff for a struct.
pub fn diff_param(old_kind: &ParamKind, new_kind: &ParamKind) -> (r: Option<ParamKind>)
    ensures
        view_opt_kind(r) == spec_diff_value(old_kind@, new_kind@),
    decreases *old_kind, 2int,
{
    match (old_kind, new_kind) {
        (ParamKind::List(o), ParamKind::List(n)) => match diff_param_list(o, n) {
            Option::Some(list) => Option::Some(ParamKind::List(list)),
            Option::None => Option::None,
        },
        (ParamKind::Struct(o), ParamKind::Struct(n)) => match diff_param_struct(o, n) {
            Option::Some(pstruct) => Option::Some(ParamKind::Struct(pstruct)),
            Option::None => Option::None,
        },
        (ParamKind::Bool(o), ParamKind::Bool(n)) => if *o != *n {
            Option::Some(ParamKind::Bool(*n))
        } else {
            Option::None
        },
        (ParamKind::I8(o), ParamKind::I8(n)) => if *o != *n {
            Option::Some(ParamKind::I8(*n))
        } else {
            Option::None
        },
        (ParamKind::U8(o), ParamKind::U8(n)) => if *o != *n {
            Option::Some(ParamKind::U8(*n))
        } else {
            Option::None
        },
        (ParamKind::I16(o), ParamKind::I16(n)) => if *o != *n {
            Option::Some(ParamKind::I16(*n))
        } else {
            Option::None
        },
        (ParamKind::U16(o), ParamKind::U16(n)) => if *o != *n {
            Option::Some(ParamKind::U16(*n))
        } else {
            Option::None
        },
        (ParamKind::I32(o), ParamKind::I32(n)) => if *o != *n {
            Option::Some(ParamKind::I32(*n))
        } else {
            Option::None
        },
        (ParamKind::U32(o), ParamKind::U32(n)) => if *o != *n {
            Option::Some(ParamKind::U32(*n))
        } else {
            Option::None
        },
        (ParamKind::Float(o), ParamKind::Float(n)) => if *o != *n {
            Option::Some(ParamKind::Float(*n))
        } else {
            Option::None
        },
        (ParamKind::Hash(o), ParamKind::Hash(n)) => if *o != *n {
            Option::Some(ParamKind::Hash(*n))
        } else {
            Option::None
        },
        (ParamKind::Str(o), ParamKind::Str(n)) => if *o != *n {
            Option::Some(ParamKind::Str(n.clone()))
        } else {
            Option::None
        },
        _ => Option::None,
    }
}

/// Compares two lists position by position over the old list's
/// length.  Returns `Some` of a list with one entry per old position —
/// the element diff where one exists, the sentinel elsewhere — exactly
/// when at least one position carries a genuine diff, and `None`
/// otherwise.  Trailing elements of a longer new list are ignored.
pub fn diff_param_list(old_list: &ParamList, new_list: &ParamList) -> (r: Option<ParamList>)
    ensures
        view_opt_list(r) == spec_diff_list(old_list@, new_list@),
    decreases *old_list, 1int,
{
    let ghost o_view = view_elems(old_list.0@);
    let ghost n_view = view_elems(new_list.0@);
    proof {
        lemma_view_elems(old_list.0@);
        lemma_view_elems(new_list.0@);
    }
    let mut diffs: Vec<ParamKind> = Vec::new();
    let mut different: bool = false;
    let mut idx: usize = 0;
    while idx < old_list.0.len()
        invariant
            idx <= old_list.0.len(),
            o_view == view_elems(old_list.0@),
            n_view == view_elems(new_list.0@),
            o_view.len() == old_list.0.len(),
            n_view.len() == new_list.0.len(),
            forall|i: int| 0 <= i < old_list.0@.len() ==> o_view[i] == view_kind(
                #[trigger] old_list.0@[i],
            ),
            forall|i: int| 0 <= i < new_list.0@.len() ==> n_view[i] == view_kind(
                #[trigger] new_list.0@[i],
            ),
            view_elems(diffs@) == spec_list_entries(o_view.subrange(0, idx as int), n_view),
            different == spec_list_changed(o_view.subrange(0, idx as int), n_view),
        decreases old_list.0.len() - idx,
    {
        let ghost pre = o_view.subrange(0, idx as int);
        let ghost post = o_view.subrange(0, idx as int + 1);
        proof {
            assert(post.subrange(0, post.len() - 1) =~= pre);
            assert(post[post.len() - 1] == o_view[idx as int]);
        }
        let param = &old_list.0[idx];
        let diffed: Option<ParamKind> = if idx < new_list.0.len() {
            diff_param(param, &new_list.0[idx])
        } else {
            Option::None
        };
        match diffed {
            Option::Some(d) => {
                proof {
                    lemma_view_elems(diffs@);
                    lemma_view_elems(diffs@.push(d));
                    assert(view_elems(diffs@.push(d)) =~= view_elems(diffs@).push(view_kind(d)));
                    assert(param@ == o_view[idx as int]);
                    assert(spec_diff_value(o_view[idx as int], n_view[idx as int])
                        == Option::Some(view_kind(d)));
                    assert(spec_list_entries(post, n_view) == spec_list_entries(
                        pre,
                        n_view,
                    ).push(view_kind(d)));
                    assert(spec_list_changed(post, n_view));
                }
                diffs.push(d);
                different = true;
            },
            Option::None => {
                let is_i8 = match param {
                    ParamKind::I8(_) => true,
                    _ => false,
                };
                let filler = if is_i8 {
                    ParamKind::Bool(false)
                } else {
                    ParamKind::I8(0)
                };
                proof {
                    lemma_view_elems(diffs@);
                    lemma_view_elems(diffs@.push(filler));
                    assert(view_elems(diffs@.push(filler)) =~= view_elems(diffs@).push(
                        view_kind(filler),
                    ));
                    assert(param@ == o_view[idx as int]);
                    assert(idx < new_list.0.len() ==> spec_diff_value(
                        o_view[idx as int],
                        n_view[idx as int],
                    ) is None);
                    assert(view_kind(filler) == spec_sentinel(o_view[idx as int]));
                    assert(spec_list_entries(post, n_view) == spec_list_entries(
                        pre,
                        n_view,
                    ).push(view_kind(filler)));
                    assert(spec_list_changed(post, n_view) == spec_list_changed(pre, n_view));
                }
                diffs.push(filler);
            },
        }
        idx = idx + 1;
    }
    proof {
        assert(o_view.subrange(0, o_view.len() as int) =~= o_view);
    }
    if different {
        Option::Some(ParamList(diffs))
    } else {
        Option::None
    }
}

/// The value of the first field with the given key, if any.
fn search_struct(what: Hash40, params: &Vec<(Hash40, ParamKind)>) -> (r: Option<&ParamKind>)
    ensures
        match r {
            Option::Some(p) => spec_record_lookup(view_fields(params@), what) == Option::Some(
                view_kind(*p),
            ),
            Option::None => spec_record_lookup(view_fields(params@), what) is None,
        },
{
    let ghost fields = view_fields(params@);
    proof {
        lemma_view_fields(params@);
        assert(fields.subrange(0, fields.len() as int) =~= fields);
    }
    let mut idx: usize = 0;
    while idx < params.len()
        invariant
            idx <= params.len(),
            fields == view_fields(params@),
            fields.len() == params.len(),
            forall|i: int| 0 <= i < params@.len() ==> fields[i] == (
                #[trigger] params@[i].0,
                view_kind(params@[i].1),
            ),
            spec_record_lookup(fields, what) == spec_record_lookup(
                fields.subrange(idx as int, fields.len() as int),
                what,
            ),
        decreases params.len() - idx,
    {
        let ghost suffix = fields.subrange(idx as int, fields.len() as int);
        let pair = &params[idx];
        proof {
            assert(suffix[0] == fields[idx as int]);
            assert(suffix.subrange(1, suffix.len() as int) =~= fields.subrange(
                idx as int + 1,
                fields.len() as int,
            ));
        }
        if pair.0 == what {
            return Option::Some(&pair.1);
        }
        idx = idx + 1;
    }
    proof {
        assert(fields.subrange(fields.len() as int, fields.len() as int) =~= Seq::<
            (Hash40, ParamView),
        >::empty());
    }
    Option::None
}

/// Compares two structs key by key over the old struct's fields, in
/// their order.  Returns `Some` of the entries whose key is found in
/// the new struct with a changed value — first match wins where a
/// malformed struct holds a key twice — exactly when there is at least
/// one such entry, and `None` otherwise.  Keys only present in one of
/// the two structs leave no entry.
pub fn diff_param_struct(old_struct: &ParamStruct, new_struct: &ParamStruct) -> (r: Option<
    ParamStruct,
>)
    ensures
        view_opt_struct(r) == spec_diff_record(old_struct@, new_struct@),
    decreases *old_struct, 1int,
{
    let ghost o_fields = view_fields(old_struct.0@);
    let ghost n_fields = view_fields(new_struct.0@);
    proof {
        lemma_view_fields(old_struct.0@);
        lemma_view_fields(new_struct.0@);
    }
    let mut diffs: Vec<(Hash40, ParamKind)> = Vec::new();
    let mut idx: usize = 0;
    while idx < old_struct.0.len()
        invariant
            idx <= old_struct.0.len(),
            o_fields == view_fields(old_struct.0@),
            n_fields == view_fields(new_struct.0@),
            o_fields.len() == old_struct.0.len(),
            forall|i: int| 0 <= i < old_struct.0@.len() ==> o_fields[i] == (
                #[trigger] old_struct.0@[i].0,
                view_kind(old_struct.0@[i].1),
            ),
            view_fields(diffs@) == spec_record_entries(
                o_fields.subrange(0, idx as int),
                n_fields,
            ),
        decreases old_struct.0.len() - idx,
    {
        let ghost pre = o_fields.subrange(0, idx as int);
        let ghost post = o_fields.subrange(0, idx as int + 1);
        proof {
            assert(post.subrange(0, post.len() - 1) =~= pre);
            assert(post[post.len() - 1] == o_fields[idx as int]);
        }
        let pair = &old_struct.0[idx];
        match search_struct(pair.0, &new_struct.0) {
            Option::Some(new_param) => match diff_param(&pair.1, new_param) {
                Option::Some(d) => {
                    proof {
                        lemma_view_fields(diffs@);
                        lemma_view_fields(diffs@.push((pair.0, d)));
                        assert(view_fields(diffs@.push((pair.0, d))) =~= view_fields(
                            diffs@,
                        ).push((pair.0, view_kind(d))));
                        assert(pair.1@ == o_fields[idx as int].1);
                        assert(pair.0 == o_fields[idx as int].0);
                        assert(spec_record_lookup(n_fields, pair.0) matches Option::Some(nv)
                            && spec_diff_value(o_fields[idx as int].1, nv) == Option::Some(
                            view_kind(d),
                        ));
                        assert(spec_record_entries(post, n_fields) == spec_record_entries(
                            pre,
                            n_fields,
                        ).push((pair.0, view_kind(d))));
                    }
                    diffs.push((pair.0, d));
                },
                Option::None => {
                    proof {
                        assert(view_fields(diffs@) == spec_record_entries(post, n_fields));
                    }
                },
            },
            Option::None => {
                proof {
                    assert(view_fields(diffs@) == spec_record_entries(post, n_fields));
                }
            },
        }
        idx = idx + 1;
    }
    proof {
        assert(o_fields.subrange(0, o_fields.len() as int) =~= o_fields);
        lemma_view_fields(diffs@);
    }
    if diffs.len() > 0 {
        Option::Some(ParamStruct(diffs))
    } else {
        Option::None
    }
}

} // verus!
