//! The parameter tree data model and its mathematical view.

use vstd::prelude::*;

verus! {

/// A 40-bit hash identifying a named field of a [`ParamStruct`].
///
/// The differ treats the key as an opaque identifier and only ever
/// compares it for equality.
#[derive(Clone, Copy, PartialEq, Eq, Structural, Debug)]
pub struct Hash40(pub u64);

/// One node of a parameter tree: a primitive scalar or a container.
///
/// `Float` carries the bit pattern of a single-precision float payload;
/// two float parameters count as equal exactly when their bit patterns
/// are equal.
pub enum ParamKind {
    Bool(bool),
    I8(i8),
    U8(u8),
    I16(i16),
    U16(u16),
    I32(i32),
    U32(u32),
    Float(u32),
    Hash(Hash40),
    Str(String),
    List(ParamList),
    Struct(ParamStruct),
}

/// An ordered sequence of parameters, addressed by zero-based position.
pub struct ParamList(pub Vec<ParamKind>);

/// An ordered sequence of key/parameter pairs, addressed by key equality.
/// Iteration order is preserved but carries no addressing semantics.
pub struct ParamStruct(pub Vec<(Hash40, ParamKind)>);

/// The mathematical model of a parameter tree: the same shape as
/// [`ParamKind`], with every vector abstracted to a sequence.
#[verifier::ext_equal]
pub enum ParamView {
    Bool(bool),
    I8(i8),
    U8(u8),
    I16(i16),
    U16(u16),
    I32(i32),
    U32(u32),
    Float(u32),
    Hash(Hash40),
    Str(Seq<char>),
    List(Seq<ParamView>),
    Struct(Seq<(Hash40, ParamView)>),
}

/// The view of one tree node.
pub open spec fn view_kind(p: ParamKind) -> ParamView
    decreases p, 1int,
{
    match p {
        ParamKind::Bool(b) => ParamView::Bool(b),
        ParamKind::I8(v) => ParamView::I8(v),
        ParamKind::U8(v) => ParamView::U8(v),
        ParamKind::I16(v) => ParamView::I16(v),
        ParamKind::U16(v) => ParamView::U16(v),
        ParamKind::I32(v) => ParamView::I32(v),
        ParamKind::U32(v) => ParamView::U32(v),
        ParamKind::Float(v) => ParamView::Float(v),
        ParamKind::Hash(h) => ParamView::Hash(h),
        ParamKind::Str(s) => ParamView::Str(s@),
        ParamKind::List(l) => ParamView::List(view_elems(l.0@)),
        ParamKind::Struct(s) => ParamView::Struct(view_fields(s.0@)),
    }
}

/// The views of the elements of a list, in order.
pub open spec fn view_elems(s: Seq<ParamKind>) -> Seq<ParamView>
    decreases s, 0int,
{
    if s.len() == 0 {
        Seq::empty()
    } else {
        view_elems(s.subrange(0, s.len() - 1)).push(view_kind(s[s.len() - 1]))
    }
}

/// The views of the fields of a struct, in order, keys kept as they are.
pub open spec fn view_fields(s: Seq<(Hash40, ParamKind)>) -> Seq<(Hash40, ParamView)>
    decreases s, 0int,
{
    if s.len() == 0 {
        Seq::empty()
    } else {
        view_fields(s.subrange(0, s.len() - 1)).push(
            (s[s.len() - 1].0, view_kind(s[s.len() - 1].1)),
        )
    }
}

impl View for ParamKind {
    type V = ParamView;

    open spec fn view(&self) -> ParamView {
        view_kind(*self)
    }
}

impl View for ParamList {
    type V = Seq<ParamView>;

    open spec fn view(&self) -> Seq<ParamView> {
        view_elems(self.0@)
    }
}

impl View for ParamStruct {
    type V = Seq<(Hash40, ParamView)>;

    open spec fn view(&self) -> Seq<(Hash40, ParamView)> {
        view_fields(self.0@)
    }
}

/// Whether a sequence of fields holds no key twice.
pub open spec fn keys_unique(s: Seq<(Hash40, ParamView)>) -> bool {
    forall|i: int, j: int|
        #![trigger s[i], s[j]]
        0 <= i < j < s.len() ==> s[i].0 != s[j].0
}

/// A well-formed tree: every struct node, at every depth, holds each
/// key at most once.
pub open spec fn wf_view(v: ParamView) -> bool
    decreases v, 1int,
{
    match v {
        ParamView::List(elems) => wf_view_elems(elems),
        ParamView::Struct(fields) => keys_unique(fields) && wf_view_fields(fields),
        _ => true,
    }
}

/// Every element of a list is well-formed.
pub open spec fn wf_view_elems(s: Seq<ParamView>) -> bool
    decreases s, 0int,
{
    if s.len() == 0 {
        true
    } else {
        wf_view_elems(s.subrange(0, s.len() - 1)) && wf_view(s[s.len() - 1])
    }
}

/// Every field value of a struct is well-formed.
pub open spec fn wf_view_fields(s: Seq<(Hash40, ParamView)>) -> bool
    decreases s, 0int,
{
    if s.len() == 0 {
        true
    } else {
        wf_view_fields(s.subrange(0, s.len() - 1)) && wf_view(s[s.len() - 1].1)
    }
}

/// The element views are exactly the pointwise views of the elements.
pub proof fn lemma_view_elems(s: Seq<ParamKind>)
    ensures
        view_elems(s).len() == s.len(),
        forall|i: int|
            #![trigger view_elems(s)[i]]
            #![trigger s[i]]
            0 <= i < s.len() ==> view_elems(s)[i] == view_kind(s[i]),
    decreases s.len(),
{
    if s.len() > 0 {
        let sub = s.subrange(0, s.len() - 1);
        lemma_view_elems(sub);
        assert forall|i: int| 0 <= i < s.len() implies view_elems(s)[i] == view_kind(
            #[trigger] s[i],
        ) by {
            if i < s.len() - 1 {
                assert(sub[i] == s[i]);
                assert(view_elems(s)[i] == view_elems(sub)[i]);
            }
        }
    }
}

/// The field views are exactly the pointwise views of the fields.
pub proof fn lemma_view_fields(s: Seq<(Hash40, ParamKind)>)
    ensures
        view_fields(s).len() == s.len(),
        forall|i: int|
            #![trigger view_fields(s)[i]]
            #![trigger s[i]]
            0 <= i < s.len() ==> view_fields(s)[i] == (s[i].0, view_kind(s[i].1)),
    decreases s.len(),
{
    if s.len() > 0 {
        let sub = s.subrange(0, s.len() - 1);
        lemma_view_fields(sub);
        assert forall|i: int| 0 <= i < s.len() implies view_fields(s)[i] == (
            #[trigger] s[i].0,
            view_kind(s[i].1),
        ) by {
            if i < s.len() - 1 {
                assert(sub[i] == s[i]);
                assert(view_fields(s)[i] == view_fields(sub)[i]);
            }
        }
    }
}

} // verus!
