//! The two value representations: the store's tagged attribute encoding and
//! the dynamic native counterpart, together with their mathematical models.

use vstd::prelude::*;

verus! {

broadcast use vstd::std_specs::vec::group_vec_axioms, vstd::seq::group_seq_axioms;

/// Mathematical model of a native value.
pub enum NativeV {
    Null,
    Bool(bool),
    Int(int),
    Float(Seq<char>),
    Str(Seq<char>),
    Bytes(Seq<u8>),
    List(Seq<NativeV>),
    Dict(Seq<(Seq<char>, NativeV)>),
    SetVal(Seq<NativeV>),
}

/// Mathematical model of a stored attribute value.
pub enum AttrV {
    S(Seq<char>),
    N(Seq<char>),
    Bool(bool),
    Null,
    B(Seq<u8>),
    L(Seq<AttrV>),
    M(Seq<(Seq<char>, AttrV)>),
    Ss(Seq<Seq<char>>),
    Ns(Seq<Seq<char>>),
    Bs(Seq<Seq<u8>>),
}

/// A host-language dynamic value: the native counterpart of a stored
/// attribute. `Float` carries the decimal text of the number, since numbers
/// travel as decimal text and the library never computes with them.
#[derive(Debug, PartialEq, Eq)]
pub enum NativeValue {
    Null,
    Bool(bool),
    Int(i64),
    Float(String),
    Str(String),
    Bytes(Vec<u8>),
    List(Vec<NativeValue>),
    Dict(Vec<(String, NativeValue)>),
    SetVal(Vec<NativeValue>),
}

/// A stored attribute value: the closed tagged union the backend accepts.
#[derive(Debug, PartialEq, Eq)]
pub enum AttributeValue {
    S(String),
    N(String),
    Bool(bool),
    Null,
    B(Vec<u8>),
    L(Vec<AttributeValue>),
    M(Vec<(String, AttributeValue)>),
    Ss(Vec<String>),
    Ns(Vec<String>),
    Bs(Vec<Vec<u8>>),
}

/// Model of a sequence of native values, element by element.
pub open spec fn native_seq_view(items: Seq<NativeValue>) -> Seq<NativeV>
    decreases items,
{
    if items.len() == 0 {
        Seq::empty()
    } else {
        native_seq_view(items.subrange(0, items.len() - 1)).push(
            items[items.len() - 1].view(),
        )
    }
}

/// Model of a sequence of string-keyed native entries, element by element.
pub open spec fn native_entries_view(entries: Seq<(String, NativeValue)>) -> Seq<
    (Seq<char>, NativeV),
>
    decreases entries,
{
    if entries.len() == 0 {
        Seq::empty()
    } else {
        native_entries_view(entries.subrange(0, entries.len() - 1)).push(
            (entries[entries.len() - 1].0@, entries[entries.len() - 1].1.view()),
        )
    }
}

impl View for NativeValue {
    type V = NativeV;

    open spec fn view(&self) -> NativeV
        decreases self,
    {
        match self {
            NativeValue::Null => NativeV::Null,
            NativeValue::Bool(b) => NativeV::Bool(*b),
            NativeValue::Int(i) => NativeV::Int(*i as int),
            NativeValue::Float(t) => NativeV::Float(t@),
            NativeValue::Str(s) => NativeV::Str(s@),
            NativeValue::Bytes(b) => NativeV::Bytes(b@),
            NativeValue::List(items) => NativeV::List(native_seq_view(items@)),
            NativeValue::Dict(entries) => NativeV::Dict(native_entries_view(entries@)),
            NativeValue::SetVal(items) => NativeV::SetVal(native_seq_view(items@)),
        }
    }
}

/// Model of a sequence of attribute values, element by element.
pub open spec fn attr_seq_view(items: Seq<AttributeValue>) -> Seq<AttrV>
    decreases items,
{
    if items.len() == 0 {
        Seq::empty()
    } else {
        attr_seq_view(items.subrange(0, items.len() - 1)).push(items[items.len() - 1].view())
    }
}

/// Model of a sequence of string-keyed attribute entries, element by element.
pub open spec fn attr_entries_view(entries: Seq<(String, AttributeValue)>) -> Seq<
    (Seq<char>, AttrV),
>
    decreases entries,
{
    if entries.len() == 0 {
        Seq::empty()
    } else {
        attr_entries_view(entries.subrange(0, entries.len() - 1)).push(
            (entries[entries.len() - 1].0@, entries[entries.len() - 1].1.view()),
        )
    }
}

impl View for AttributeValue {
    type V = AttrV;

    open spec fn view(&self) -> AttrV
        decreases self,
    {
        match self {
            AttributeValue::S(s) => AttrV::S(s@),
            AttributeValue::N(n) => AttrV::N(n@),
            AttributeValue::Bool(b) => AttrV::Bool(*b),
            AttributeValue::Null => AttrV::Null,
            AttributeValue::B(b) => AttrV::B(b@),
            AttributeValue::L(items) => AttrV::L(attr_seq_view(items@)),
            AttributeValue::M(entries) => AttrV::M(attr_entries_view(entries@)),
            AttributeValue::Ss(ss) => AttrV::Ss(Seq::new(ss@.len(), |i: int| ss@[i]@)),
            AttributeValue::Ns(ns) => AttrV::Ns(Seq::new(ns@.len(), |i: int| ns@[i]@)),
            AttributeValue::Bs(bs) => AttrV::Bs(Seq::new(bs@.len(), |i: int| bs@[i]@)),
        }
    }
}

/// The element-by-element model of a native sequence has the same length, and
/// the element models stand at the same indices.
pub proof fn lemma_native_seq_view(items: Seq<NativeValue>)
    ensures
        native_seq_view(items).len() == items.len(),
        forall|i: int|
            0 <= i < items.len() ==> native_seq_view(items)[i] == #[trigger] items[i]@,
    decreases items.len(),
{
    if items.len() > 0 {
        let sub = items.subrange(0, items.len() - 1);
        lemma_native_seq_view(sub);
        assert(native_seq_view(items) == native_seq_view(sub).push(items[items.len() - 1]@));
        assert forall|i: int| 0 <= i < items.len() implies native_seq_view(items)[i]
            == #[trigger] items[i]@ by {
            if i < items.len() - 1 {
                assert(sub[i]@ == items[i]@);
            }
        }
    }
}

/// The element-by-element model of native entries has the same length, and
/// the entry models stand at the same indices.
pub proof fn lemma_native_entries_view(entries: Seq<(String, NativeValue)>)
    ensures
        native_entries_view(entries).len() == entries.len(),
        forall|i: int|
            0 <= i < entries.len() ==> native_entries_view(entries)[i] == (
            #[trigger] entries[i].0@,
            entries[i].1@,
            ),
    decreases entries.len(),
{
    if entries.len() > 0 {
        let sub = entries.subrange(0, entries.len() - 1);
        lemma_native_entries_view(sub);
        assert(native_entries_view(entries) == native_entries_view(sub).push(
            (entries[entries.len() - 1].0@, entries[entries.len() - 1].1@),
        ));
        assert forall|i: int| 0 <= i < entries.len() implies native_entries_view(entries)[i] == (
        #[trigger] entries[i].0@,
        entries[i].1@,
        ) by {
            if i < entries.len() - 1 {
                assert(sub[i].0@ == entries[i].0@);
                assert(sub[i].1@ == entries[i].1@);
            }
        }
    }
}

/// The element-by-element model of an attribute sequence has the same length,
/// and the element models stand at the same indices.
pub proof fn lemma_attr_seq_view(items: Seq<AttributeValue>)
    ensures
        attr_seq_view(items).len() == items.len(),
        forall|i: int| 0 <= i < items.len() ==> attr_seq_view(items)[i] == #[trigger] items[i]@,
    decreases items.len(),
{
    if items.len() > 0 {
        let sub = items.subrange(0, items.len() - 1);
        lemma_attr_seq_view(sub);
        assert(attr_seq_view(items) == attr_seq_view(sub).push(items[items.len() - 1]@));
        assert forall|i: int| 0 <= i < items.len() implies attr_seq_view(items)[i]
            == #[trigger] items[i]@ by {
            if i < items.len() - 1 {
                assert(sub[i]@ == items[i]@);
            }
        }
    }
}

/// The element-by-element model of attribute entries has the same length, and
/// the entry models stand at the same indices.
pub proof fn lemma_attr_entries_view(entries: Seq<(String, AttributeValue)>)
    ensures
        attr_entries_view(entries).len() == entries.len(),
        forall|i: int|
            0 <= i < entries.len() ==> attr_entries_view(entries)[i] == (
            #[trigger] entries[i].0@,
            entries[i].1@,
            ),
    decreases entries.len(),
{
    if entries.len() > 0 {
        let sub = entries.subrange(0, entries.len() - 1);
        lemma_attr_entries_view(sub);
        assert(attr_entries_view(entries) == attr_entries_view(sub).push(
            (entries[entries.len() - 1].0@, entries[entries.len() - 1].1@),
        ));
        assert forall|i: int| 0 <= i < entries.len() implies attr_entries_view(entries)[i] == (
        #[trigger] entries[i].0@,
        entries[i].1@,
        ) by {
            if i < entries.len() - 1 {
                assert(sub[i].0@ == entries[i].0@);
                assert(sub[i].1@ == entries[i].1@);
            }
        }
    }
}

} // verus!

