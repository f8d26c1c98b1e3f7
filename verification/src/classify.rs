//! The value classifier: the fixed, ordered chain of structural tests used by
//! the fully-dynamic entry point, and the truthiness protocol.
//!
//! The priority order of the runtime's own capability checks (absence first,
//! then the boolean subtype before the generic integer, then the concrete
//! collection types before the generic sequence and mapping protocols) is
//! resolved while a runtime value is mirrored into [`DynValue`]; here every
//! value already belongs to exactly one constructor, and the classifier maps
//! constructors to categories.

use vstd::prelude::*;

use crate::error::{Category, DecodeError, SpecError};
use crate::value::{DynValue, SpecValue};
use crate::view_result;

verus! {

/// The structural category of a dynamic value.
///
/// List-like, tuple-like and set-like values all admit sequence-style
/// positional access and report `Sequence`; the set-like case keeps the
/// iteration order the runtime exposes.
pub open spec fn spec_category(v: SpecValue) -> Category {
    match v {
        SpecValue::Nil => Category::Null,
        SpecValue::Bool(_) => Category::Boolean,
        SpecValue::Int(_) => Category::Integer,
        SpecValue::Float(_) => Category::Float,
        SpecValue::Str(_) => Category::Text,
        SpecValue::Bytes(_) => Category::Bytes,
        SpecValue::List(_) => Category::Sequence,
        SpecValue::Tuple(_) => Category::Sequence,
        SpecValue::SetLike(_) => Category::Sequence,
        SpecValue::Dict(_) => Category::Mapping,
        SpecValue::Other(_) => Category::Unknown,
    }
}

/// What the classifier reports: the category, or an unsupported-type error
/// carrying the runtime type's display name.
pub open spec fn spec_classify(v: SpecValue) -> Result<Category, SpecError> {
    match v {
        SpecValue::Other(name) => Err(SpecError::UnsupportedType(name)),
        _ => Ok(spec_category(v)),
    }
}

/// The truthiness / boolean-coercion protocol of the dynamic object model:
/// absence, zero and empty collections are false; a value of an unsupported
/// category is true.
pub open spec fn spec_truthy(v: SpecValue) -> bool {
    match v {
        SpecValue::Nil => false,
        SpecValue::Bool(b) => b,
        SpecValue::Int(i) => i.magnitude != 0,
        SpecValue::Float(bits) => !(bits == 0 || bits == 0x8000_0000_0000_0000),
        SpecValue::Str(s) => s.len() != 0,
        SpecValue::Bytes(b) => b.len() != 0,
        SpecValue::List(items) => items.len() != 0,
        SpecValue::Tuple(items) => items.len() != 0,
        SpecValue::SetLike(items) => items.len() != 0,
        SpecValue::Dict(entries) => entries.len() != 0,
        SpecValue::Other(_) => true,
    }
}

/// Report the single best-matching structural category of `v`, or an
/// unsupported-type error naming the runtime type.
pub fn classify(v: &DynValue) -> (r: Result<Category, DecodeError>)
    ensures
        view_result(r) == spec_classify(v.deep_view()),
{
    match v {
        DynValue::Nil => Ok(Category::Null),
        DynValue::Bool(_) => Ok(Category::Boolean),
        DynValue::Int(_) => Ok(Category::Integer),
        DynValue::Float(_) => Ok(Category::Float),
        DynValue::Str(_) => Ok(Category::Text),
        DynValue::Bytes(_) => Ok(Category::Bytes),
        DynValue::List(_) => Ok(Category::Sequence),
        DynValue::Tuple(_) => Ok(Category::Sequence),
        DynValue::SetLike(_) => Ok(Category::Sequence),
        DynValue::Dict(_) => Ok(Category::Mapping),
        DynValue::Other(name) => Err(DecodeError::UnsupportedType(name.clone())),
    }
}

/// The category of `v`, with unsupported values reported as `Unknown` rather
/// than as an error; used for the `got` side of mismatch errors.
pub fn category_of(v: &DynValue) -> (c: Category)
    ensures
        c == spec_category(v.deep_view()),
{
    match v {
        DynValue::Nil => Category::Null,
        DynValue::Bool(_) => Category::Boolean,
        DynValue::Int(_) => Category::Integer,
        DynValue::Float(_) => Category::Float,
        DynValue::Str(_) => Category::Text,
        DynValue::Bytes(_) => Category::Bytes,
        DynValue::List(_) => Category::Sequence,
        DynValue::Tuple(_) => Category::Sequence,
        DynValue::SetLike(_) => Category::Sequence,
        DynValue::Dict(_) => Category::Mapping,
        DynValue::Other(_) => Category::Unknown,
    }
}

/// Read `v` through the truthiness protocol.
pub fn truthy(v: &DynValue) -> (b: bool)
    ensures
        b == spec_truthy(v.deep_view()),
{
    match v {
        DynValue::Nil => false,
        DynValue::Bool(b) => *b,
        DynValue::Int(i) => i.magnitude != 0,
        DynValue::Float(bits) => !(*bits == 0 || *bits == 0x8000_0000_0000_0000),
        DynValue::Str(s) => !s.as_str().is_empty(),
        DynValue::Bytes(b) => b.len() != 0,
        DynValue::List(items) => nonempty(items),
        DynValue::Tuple(items) => nonempty(items),
        DynValue::SetLike(items) => nonempty(items),
        DynValue::Dict(entries) => {
            proof {
                crate::value::lemma_view_entries(entries@);
            }
            entries.len() != 0
        },
        DynValue::Other(_) => true,
    }
}

/// The length test shared by the collection arms of [`truthy`].
fn nonempty(items: &Vec<DynValue>) -> (b: bool)
    ensures
        b == (crate::value::view_values(items@).len() != 0),
{
    proof {
        crate::value::lemma_view_values(items@);
    }
    items.len() != 0
}

} // verus!
