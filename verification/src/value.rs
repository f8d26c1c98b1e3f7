//! The dynamic object model: runtime-typed values as the engine sees them.
//!
//! A value of the embedded runtime is mirrored here as plain data.  Floats are
//! carried as their 64-bit IEEE 754 bit patterns; the engine never performs
//! floating-point arithmetic on them.  Integers are sign-and-magnitude, wide
//! enough for everything the engine's narrowing ladder can accept.

use vstd::prelude::*;

verus! {

/// An arbitrary-width integer of the dynamic object model, in
/// sign-and-magnitude form.
#[derive(Clone, Copy, Debug, PartialEq, Eq, Structural)]
pub struct DynInt {
    /// True for values strictly below zero.
    pub negative: bool,
    /// The absolute value.
    pub magnitude: u128,
}

impl DynInt {
    /// The mathematical value represented.
    pub open spec fn spec_value(self) -> int {
        if self.negative {
            -(self.magnitude as int)
        } else {
            self.magnitude as int
        }
    }

    /// Well-formed: a negative integer carries a nonzero magnitude, so each
    /// value has exactly one representation.
    pub open spec fn wf(self) -> bool {
        self.negative ==> self.magnitude >= 1
    }
}

/// A value of the dynamic object model.
///
/// Every value belongs to exactly one structural category at the time it is
/// inspected; the classifier resolves overlapping runtime classifications
/// (such as booleans being an integer subtype) before a value is mirrored
/// into this type.
#[derive(Debug)]
pub enum DynValue {
    /// The distinguished absence / unit sentinel.
    Nil,
    /// A boolean.
    Bool(bool),
    /// An integer of arbitrary width.
    Int(DynInt),
    /// A 64-bit float, as its IEEE 754 bit pattern.
    Float(u64),
    /// Text.
    Str(String),
    /// A byte buffer.
    Bytes(Vec<u8>),
    /// An ordered, list-like sequence.
    List(Vec<DynValue>),
    /// An ordered, tuple-like sequence.
    Tuple(Vec<DynValue>),
    /// A mapping, as its key/value entries in the runtime's iteration order.
    Dict(Vec<DictEntry>),
    /// A set-like collection, in the iteration order the runtime exposes.
    SetLike(Vec<DynValue>),
    /// Any other runtime value; carries the runtime type's display name for
    /// diagnostics.
    Other(String),
}

/// One key/value entry of a dynamic mapping.
#[derive(Debug)]
pub struct DictEntry {
    pub key: DynValue,
    pub value: DynValue,
}

/// The mathematical form of a [`DynValue`].
#[verifier::ext_equal]
pub enum SpecValue {
    Nil,
    Bool(bool),
    Int(DynInt),
    Float(u64),
    Str(Seq<char>),
    Bytes(Seq<u8>),
    List(Seq<SpecValue>),
    Tuple(Seq<SpecValue>),
    Dict(Seq<SpecEntry>),
    SetLike(Seq<SpecValue>),
    Other(Seq<char>),
}

/// The mathematical form of a [`DictEntry`].
#[verifier::ext_equal]
pub struct SpecEntry {
    pub key: SpecValue,
    pub value: SpecValue,
}

/// The mathematical form of one dynamic value.
pub open spec fn view_value(v: DynValue) -> SpecValue
    decreases v,
{
    match v {
        DynValue::Nil => SpecValue::Nil,
        DynValue::Bool(b) => SpecValue::Bool(b),
        DynValue::Int(i) => SpecValue::Int(i),
        DynValue::Float(bits) => SpecValue::Float(bits),
        DynValue::Str(s) => SpecValue::Str(s@),
        DynValue::Bytes(b) => SpecValue::Bytes(b@),
        DynValue::List(items) => SpecValue::List(view_values(items@)),
        DynValue::Tuple(items) => SpecValue::Tuple(view_values(items@)),
        DynValue::Dict(entries) => SpecValue::Dict(view_entries(entries@)),
        DynValue::SetLike(items) => SpecValue::SetLike(view_values(items@)),
        DynValue::Other(name) => SpecValue::Other(name@),
    }
}

/// The mathematical form of a sequence of dynamic values, element by element.
pub open spec fn view_values(s: Seq<DynValue>) -> Seq<SpecValue>
    decreases s,
{
    if s.len() == 0 {
        Seq::empty()
    } else {
        view_values(s.drop_last()).push(view_value(s.last()))
    }
}

/// The mathematical form of a sequence of mapping entries.
pub open spec fn view_entries(s: Seq<DictEntry>) -> Seq<SpecEntry>
    decreases s,
{
    if s.len() == 0 {
        Seq::empty()
    } else {
        view_entries(s.drop_last()).push(
            SpecEntry {
                key: view_value(s.last().key),
                value: view_value(s.last().value),
            },
        )
    }
}

impl DeepView for DynValue {
    type V = SpecValue;

    open spec fn deep_view(&self) -> SpecValue {
        view_value(*self)
    }
}

impl DeepView for DictEntry {
    type V = SpecEntry;

    open spec fn deep_view(&self) -> SpecEntry {
        SpecEntry { key: self.key.deep_view(), value: self.value.deep_view() }
    }
}

/// `view_values` maps `view_value` over the sequence, position by position.
pub proof fn lemma_view_values(s: Seq<DynValue>)
    ensures
        view_values(s).len() == s.len(),
        forall|i: int| 0 <= i < s.len() ==> view_values(s)[i] == view_value(#[trigger] s[i]),
    decreases s,
{
    if s.len() > 0 {
        lemma_view_values(s.drop_last());
        assert forall|i: int| 0 <= i < s.len() implies view_values(s)[i] == view_value(
            #[trigger] s[i],
        ) by {
            if i < s.len() - 1 {
                assert(s.drop_last()[i] == s[i]);
                assert(view_values(s)[i] == view_values(s.drop_last())[i]);
            } else {
                assert(s.last() == s[i]);
            }
        }
    }
}

/// `view_entries` maps the entry view over the sequence, position by position.
pub proof fn lemma_view_entries(s: Seq<DictEntry>)
    ensures
        view_entries(s).len() == s.len(),
        forall|i: int|
            0 <= i < s.len() ==> view_entries(s)[i] == (#[trigger] s[i]).deep_view(),
    decreases s,
{
    if s.len() > 0 {
        lemma_view_entries(s.drop_last());
        assert forall|i: int| 0 <= i < s.len() implies view_entries(s)[i] == (
        #[trigger] s[i]).deep_view() by {
            if i < s.len() - 1 {
                assert(s.drop_last()[i] == s[i]);
                assert(view_entries(s)[i] == view_entries(s.drop_last())[i]);
            } else {
                assert(s.last() == s[i]);
            }
        }
    }
}

} // verus!
