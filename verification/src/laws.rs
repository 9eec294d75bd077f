//! The laws the differ obeys, stated over the mathematical model and
//! proved once and for all.

use vstd::prelude::*;

use crate::diff::record_entry_changed;
use crate::diff::record_entry_diff;
use crate::diff::spec_changed_fields;
use crate::diff::spec_diff_list;
use crate::diff::spec_diff_record;
use crate::diff::spec_diff_value;
use crate::diff::spec_list_changed;
use crate::diff::spec_list_entries;
use crate::diff::spec_list_entry_at;
use crate::diff::spec_record_entries;
use crate::diff::spec_record_lookup;
use crate::diff::spec_sentinel;
use crate::diff::lemma_list_changed;
use crate::diff::lemma_list_entries;
use crate::param::Hash40;
use crate::param::ParamView;
use crate::param::keys_unique;
use crate::param::wf_view;
use crate::param::wf_view_elems;
use crate::param::wf_view_fields;

verus! {

/// Looking a key up in a struct without duplicate keys finds exactly
/// the field that holds it.
pub proof fn lemma_lookup_unique(n: Seq<(Hash40, ParamView)>, i: int)
    requires
        keys_unique(n),
        0 <= i < n.len(),
    ensures
        spec_record_lookup(n, n[i].0) == Option::Some(n[i].1),
    decreases n.len(),
{
    if i > 0 {
        let sub = n.subrange(1, n.len() as int);
        assert(n[0].0 != n[i].0);
        assert forall|a: int, b: int| 0 <= a < b < sub.len() implies (#[trigger] sub[a]).0 != (
        #[trigger] sub[b]).0 by {
            assert(sub[a] == n[a + 1]);
            assert(sub[b] == n[b + 1]);
        }
        lemma_lookup_unique(sub, i - 1);
        assert(sub[i - 1] == n[i]);
    }
}

/// Comparing a list against one that agrees at every shared position
/// reports no change.
proof fn lemma_list_agree_unchanged(o: Seq<ParamView>, n: Seq<ParamView>)
    requires
        wf_view_elems(o),
        forall|i: int| #![trigger o[i]] 0 <= i < o.len() && i < n.len() ==> o[i] == n[i],
    ensures
        !spec_list_changed(o, n),
    decreases o, 0int,
{
    if o.len() > 0 {
        let sub = o.subrange(0, o.len() - 1);
        assert forall|i: int| 0 <= i < sub.len() && i < n.len() implies #[trigger] sub[i]
            == n[i] by {
            assert(sub[i] == o[i]);
        }
        lemma_list_agree_unchanged(sub, n);
        if o.len() - 1 < n.len() {
            lemma_diff_value_self_none(o[o.len() - 1]);
        }
    }
}

/// Comparing a struct against one in which every key of the old struct
/// looks up to its own old value yields no entry at all.
proof fn lemma_record_agree_empty(o: Seq<(Hash40, ParamView)>, n: Seq<(Hash40, ParamView)>)
    requires
        wf_view_fields(o),
        forall|i: int|
            #![trigger o[i]]
            0 <= i < o.len() ==> spec_record_lookup(n, o[i].0) == Option::Some(o[i].1),
    ensures
        spec_record_entries(o, n) == Seq::<(Hash40, ParamView)>::empty(),
    decreases o, 0int,
{
    if o.len() > 0 {
        let sub = o.subrange(0, o.len() - 1);
        assert forall|i: int| 0 <= i < sub.len() implies spec_record_lookup(
            n,
            (#[trigger] sub[i]).0,
        ) == Option::Some(sub[i].1) by {
            assert(sub[i] == o[i]);
        }
        lemma_record_agree_empty(sub, n);
        lemma_diff_value_self_none(o[o.len() - 1].1);
    }
}

/// Equality leaves no diff: comparing a well-formed tree against
/// itself reports no difference.
pub proof fn lemma_diff_value_self_none(v: ParamView)
    requires
        wf_view(v),
    ensures
        spec_diff_value(v, v) is None,
    decreases v, 2int,
{
    match v {
        ParamView::List(elems) => {
            lemma_list_agree_unchanged(elems, elems);
        },
        ParamView::Struct(fields) => {
            assert forall|i: int| #![trigger fields[i]] 0 <= i < fields.len() implies
                spec_record_lookup(fields, fields[i].0) == Option::Some(fields[i].1) by {
                lemma_lookup_unique(fields, i);
            }
            lemma_record_agree_empty(fields, fields);
        },
        _ => {},
    }
}

/// Equality leaves no diff at the root either: a well-formed struct
/// compared against itself yields the explicit no-difference outcome.
pub proof fn lemma_diff_record_self_none(fields: Seq<(Hash40, ParamView)>)
    requires
        keys_unique(fields),
        wf_view_fields(fields),
    ensures
        spec_diff_record(fields, fields) is None,
{
    assert forall|i: int| #![trigger fields[i]] 0 <= i < fields.len() implies spec_record_lookup(
        fields,
        fields[i].0,
    ) == Option::Some(fields[i].1) by {
        lemma_lookup_unique(fields, i);
    }
    lemma_record_agree_empty(fields, fields);
}

/// Whether a tree node is a primitive scalar rather than a container.
pub open spec fn is_primitive(v: ParamView) -> bool {
    !(v is List) && !(v is Struct)
}

/// Whether two tree nodes carry the same variant.
pub open spec fn same_variant(a: ParamView, b: ParamView) -> bool {
    match (a, b) {
        (ParamView::Bool(_), ParamView::Bool(_)) => true,
        (ParamView::I8(_), ParamView::I8(_)) => true,
        (ParamView::U8(_), ParamView::U8(_)) => true,
        (ParamView::I16(_), ParamView::I16(_)) => true,
        (ParamView::U16(_), ParamView::U16(_)) => true,
        (ParamView::I32(_), ParamView::I32(_)) => true,
        (ParamView::U32(_), ParamView::U32(_)) => true,
        (ParamView::Float(_), ParamView::Float(_)) => true,
        (ParamView::Hash(_), ParamView::Hash(_)) => true,
        (ParamView::Str(_), ParamView::Str(_)) => true,
        (ParamView::List(_), ParamView::List(_)) => true,
        (ParamView::Struct(_), ParamView::Struct(_)) => true,
        _ => false,
    }
}

/// A changed primitive surfaces the new value: the diff of two
/// unequal primitives of one variant is the new one, wholesale.
pub proof fn lemma_primitive_change(old_v: ParamView, new_v: ParamView)
    requires
        is_primitive(old_v),
        same_variant(old_v, new_v),
        old_v != new_v,
    ensures
        spec_diff_value(old_v, new_v) == Option::Some(new_v),
{
}

/// A variant mismatch suppresses the diff: values of different
/// variants are not comparable and report no difference.
pub proof fn lemma_variant_mismatch(old_v: ParamView, new_v: ParamView)
    requires
        !same_variant(old_v, new_v),
    ensures
        spec_diff_value(old_v, new_v) is None,
{
}

/// An unchanged position of a list diff holds the sentinel whose
/// variant can never collide with a genuine diff: boolean false where
/// the old element is the 8-bit signed variant, 8-bit signed zero
/// everywhere else.
pub proof fn lemma_sequence_sentinel(o: Seq<ParamView>, n: Seq<ParamView>, i: int)
    requires
        0 <= i < o.len(),
        i < n.len(),
        n[i] == o[i],
        wf_view(o[i]),
    ensures
        o[i] is I8 ==> spec_list_entries(o, n)[i] == ParamView::Bool(false),
        !(o[i] is I8) ==> spec_list_entries(o, n)[i] == ParamView::I8(0),
{
    lemma_diff_value_self_none(o[i]);
    lemma_list_entries(o, n);
    assert(spec_list_entries(o, n)[i] == spec_list_entry_at(o, n, i));
    assert(spec_diff_value(o[i], n[i]) is None);
}

/// A truncated position always receives the sentinel: where the new
/// list is too short, the old element's value plays no part.
pub proof fn lemma_sequence_truncation(o: Seq<ParamView>, n: Seq<ParamView>, i: int)
    requires
        0 <= i < o.len(),
        n.len() <= i,
    ensures
        spec_list_entries(o, n)[i] == spec_sentinel(o[i]),
{
    lemma_list_entries(o, n);
    assert(spec_list_entries(o, n)[i] == spec_list_entry_at(o, n, i));
}

/// Extra elements of a longer new list are ignored: they appear in no
/// output and have no bearing on whether the list counts as changed.
pub proof fn lemma_sequence_extension(o: Seq<ParamView>, n: Seq<ParamView>)
    requires
        o.len() <= n.len(),
    ensures
        spec_diff_list(o, n) == spec_diff_list(o, n.subrange(0, o.len() as int)),
{
    let m = n.subrange(0, o.len() as int);
    lemma_list_entries(o, n);
    lemma_list_entries(o, m);
    lemma_list_changed(o, n);
    lemma_list_changed(o, m);
    assert(spec_list_changed(o, n) == spec_list_changed(o, m)) by {
        if spec_list_changed(o, n) {
            let i = choose|i: int|
                0 <= i < o.len() && i < n.len() && spec_diff_value(
                    #[trigger] o[i],
                    n[i],
                ) is Some;
            assert(m[i] == n[i]);
            assert(spec_diff_value(o[i], m[i]) is Some);
        }
        if spec_list_changed(o, m) {
            let i = choose|i: int|
                0 <= i < o.len() && i < m.len() && spec_diff_value(
                    #[trigger] o[i],
                    m[i],
                ) is Some;
            assert(m[i] == n[i]);
            assert(spec_diff_value(o[i], n[i]) is Some);
        }
    }
    assert(spec_list_entries(o, n) =~= spec_list_entries(o, m)) by {
        assert forall|i: int| 0 <= i < o.len() implies spec_list_entries(o, n)[i]
            == spec_list_entries(o, m)[i] by {
            assert(m[i] == n[i]);
            assert(spec_list_entries(o, n)[i] == spec_list_entry_at(o, n, i));
            assert(spec_list_entries(o, m)[i] == spec_list_entry_at(o, m, i));
        }
    }
}

/// A struct diff is sparse and order-preserving: its entries are
/// exactly the old fields whose key looks up in the new struct to a
/// value that differs, in the old order, each carrying the value diff.
pub proof fn lemma_record_sparsity(o: Seq<(Hash40, ParamView)>, n: Seq<(Hash40, ParamView)>)
    ensures
        spec_record_entries(o, n) == spec_changed_fields(o, n),
    decreases o.len(),
{
    reveal(Seq::filter);
    let pred = |p: (Hash40, ParamView)| record_entry_changed(p, n);
    let f = |p: (Hash40, ParamView)| record_entry_diff(p, n);
    if o.len() == 0 {
        assert(o.filter(pred) =~= Seq::<(Hash40, ParamView)>::empty());
        assert(spec_changed_fields(o, n) =~= Seq::<(Hash40, ParamView)>::empty());
    } else {
        let sub = o.subrange(0, o.len() - 1);
        let last = o[o.len() - 1];
        lemma_record_sparsity(sub, n);
        assert(o.drop_last() =~= sub);
        assert(o.last() == last);
        if pred(last) {
            assert(o.filter(pred) == sub.filter(pred).push(last));
            assert(sub.filter(pred).push(last).map_values(f) =~= sub.filter(pred).map_values(
                f,
            ).push(f(last)));
            assert(spec_record_entries(o, n) == spec_record_entries(sub, n).push(f(last)));
        } else {
            assert(o.filter(pred) == sub.filter(pred));
            assert(spec_record_entries(o, n) == spec_record_entries(sub, n));
        }
    }
}

} // verus!

