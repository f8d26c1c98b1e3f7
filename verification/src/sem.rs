//! The meaning of one conversion: recursive specification functions that say,
//! for every dynamic value and every schema request, exactly which target
//! value or which structured error the engine produces.
//!
//! The executable engine in [`crate::de`] is proved equal to these functions.
//! Evaluation order is the engine's: within a compound value, positions are
//! consumed front to back and the first failure aborts the whole conversion.

use vstd::prelude::*;

use crate::classify::{spec_category, spec_truthy};
use crate::decoded::{SpecDecoded, SpecDecodedEntry, SpecDecodedField, SpecVariantValue};
use crate::error::{Category, SpecError};
use crate::narrow::spec_narrow;
use crate::schema::{SpecField, SpecSchema, SpecShape, SpecVariant};
use crate::value::{SpecEntry, SpecValue};

verus! {

// ---------------------------------------------------------------------------
// Size measures, used as termination metrics for the mutual recursion below.
// ---------------------------------------------------------------------------

/// The size of a dynamic value: one for itself plus the sizes of everything
/// it contains.
pub open spec fn val_size(v: SpecValue) -> nat
    decreases v,
{
    match v {
        SpecValue::List(items) => 1 + val_size_seq(items),
        SpecValue::Tuple(items) => 1 + val_size_seq(items),
        SpecValue::SetLike(items) => 1 + val_size_seq(items),
        SpecValue::Dict(entries) => 1 + val_size_entries(entries),
        _ => 1,
    }
}

/// The combined size of a sequence of dynamic values.
pub open spec fn val_size_seq(s: Seq<SpecValue>) -> nat
    decreases s,
{
    if s.len() == 0 {
        0
    } else {
        val_size_seq(s.drop_last()) + val_size(s.last()) + 1
    }
}

/// The combined size of a sequence of mapping entries.
pub open spec fn val_size_entries(s: Seq<SpecEntry>) -> nat
    decreases s,
{
    if s.len() == 0 {
        0
    } else {
        val_size_entries(s.drop_last()) + val_size(s.last().key) + val_size(s.last().value) + 1
    }
}

/// The size of a schema request.
pub open spec fn schema_size(s: SpecSchema) -> nat
    decreases s,
{
    match s {
        SpecSchema::Optional(inner) => 1 + schema_size(*inner),
        SpecSchema::Sequence(inner) => 1 + schema_size(*inner),
        SpecSchema::Tuple(ss) => 1 + schema_size_seq(ss),
        SpecSchema::Mapping(k, v) => 1 + schema_size(*k) + schema_size(*v),
        SpecSchema::Record(fields) => 1 + fields_size(fields),
        SpecSchema::Union(variants) => 1 + variants_size(variants),
        SpecSchema::Untagged(variants) => 1 + variants_size(variants),
        _ => 1,
    }
}

/// The combined size of a sequence of schema requests.
pub open spec fn schema_size_seq(s: Seq<SpecSchema>) -> nat
    decreases s,
{
    if s.len() == 0 {
        0
    } else {
        schema_size_seq(s.drop_last()) + schema_size(s.last()) + 1
    }
}

/// The combined size of a record's field list.
pub open spec fn fields_size(s: Seq<SpecField>) -> nat
    decreases s,
{
    if s.len() == 0 {
        0
    } else {
        fields_size(s.drop_last()) + schema_size(s.last().schema) + 1
    }
}

/// The combined size of a union's variant list.  Head-first, because the
/// untagged search walks the variants front to back.
pub open spec fn variants_size(s: Seq<SpecVariant>) -> nat
    decreases s,
{
    if s.len() == 0 {
        0
    } else {
        2 + shape_size(s[0].shape) + variants_size(s.drop_first())
    }
}

/// The size of a variant's payload shape.
pub open spec fn shape_size(s: SpecShape) -> nat
    decreases s,
{
    match s {
        SpecShape::Unit => 1,
        SpecShape::Newtype(inner) => 1 + schema_size(*inner),
        SpecShape::Tuple(ss) => 1 + schema_size_seq(ss),
        SpecShape::Record(fields) => 1 + fields_size(fields),
    }
}

/// Every element of a sequence is strictly smaller than the sequence.
pub proof fn lemma_val_size_seq_elem(s: Seq<SpecValue>, i: int)
    requires
        0 <= i < s.len(),
    ensures
        val_size(s[i]) < val_size_seq(s),
    decreases s,
{
    if i == s.len() - 1 {
        assert(s.last() == s[i]);
    } else {
        lemma_val_size_seq_elem(s.drop_last(), i);
        assert(s.drop_last()[i] == s[i]);
    }
}

/// Every key and value of an entry sequence is strictly smaller than the
/// sequence.
pub proof fn lemma_val_size_entries_elem(s: Seq<SpecEntry>, i: int)
    requires
        0 <= i < s.len(),
    ensures
        val_size(s[i].key) < val_size_entries(s),
        val_size(s[i].value) < val_size_entries(s),
    decreases s,
{
    if i == s.len() - 1 {
        assert(s.last() == s[i]);
    } else {
        lemma_val_size_entries_elem(s.drop_last(), i);
        assert(s.drop_last()[i] == s[i]);
    }
}

/// Every schema of a schema sequence is strictly smaller than the sequence.
pub proof fn lemma_schema_size_seq_elem(s: Seq<SpecSchema>, i: int)
    requires
        0 <= i < s.len(),
    ensures
        schema_size(s[i]) < schema_size_seq(s),
    decreases s,
{
    if i == s.len() - 1 {
        assert(s.last() == s[i]);
    } else {
        lemma_schema_size_seq_elem(s.drop_last(), i);
        assert(s.drop_last()[i] == s[i]);
    }
}

/// Every variant shape of a variant list is strictly smaller than the list.
pub proof fn lemma_variants_size_elem(s: Seq<SpecVariant>, i: int)
    requires
        0 <= i < s.len(),
    ensures
        shape_size(s[i].shape) + 1 < variants_size(s),
    decreases s,
{
    if i > 0 {
        lemma_variants_size_elem(s.drop_first(), i - 1);
        assert(s.drop_first()[i - 1] == s[i]);
    }
}

// ---------------------------------------------------------------------------
// Lookup helpers.
// ---------------------------------------------------------------------------

/// The index of the first field called `name`, if any.
pub open spec fn spec_field_index(fields: Seq<SpecField>, name: Seq<char>) -> Option<int>
    decreases fields,
{
    if fields.len() == 0 {
        None
    } else if fields[0].name == name {
        Some(0int)
    } else {
        match spec_field_index(fields.drop_first(), name) {
            Some(j) => Some(j + 1),
            None => None,
        }
    }
}

/// The index of the first variant called `name`, if any.
pub open spec fn spec_variant_index(variants: Seq<SpecVariant>, name: Seq<char>) -> Option<int>
    decreases variants,
{
    if variants.len() == 0 {
        None
    } else if variants[0].name == name {
        Some(0int)
    } else {
        match spec_variant_index(variants.drop_first(), name) {
            Some(j) => Some(j + 1),
            None => None,
        }
    }
}

/// What `spec_field_index` finds: the first position carrying `name`, or
/// nothing when no position carries it.
pub proof fn lemma_field_index(fields: Seq<SpecField>, name: Seq<char>)
    ensures
        match spec_field_index(fields, name) {
            Some(j) => {
                &&& 0 <= j < fields.len()
                &&& fields[j].name == name
                &&& forall|k: int| 0 <= k < j ==> (#[trigger] fields[k]).name != name
            },
            None => forall|k: int| 0 <= k < fields.len() ==> (#[trigger] fields[k]).name != name,
        },
    decreases fields,
{
    if fields.len() > 0 && fields[0].name != name {
        let rest = fields.drop_first();
        lemma_field_index(rest, name);
        match spec_field_index(rest, name) {
            Some(j) => {
                assert(fields[j + 1] == rest[j]);
                assert forall|k: int| 0 <= k < j + 1 implies (#[trigger] fields[k]).name
                    != name by {
                    if k > 0 {
                        assert(rest[k - 1] == fields[k]);
                    }
                }
            },
            None => {
                assert forall|k: int| 0 <= k < fields.len() implies (#[trigger] fields[k]).name
                    != name by {
                    if k > 0 {
                        assert(rest[k - 1] == fields[k]);
                    }
                }
            },
        }
    }
}

/// What `spec_variant_index` finds, in the same way.
pub proof fn lemma_variant_index(variants: Seq<SpecVariant>, name: Seq<char>)
    ensures
        match spec_variant_index(variants, name) {
            Some(j) => {
                &&& 0 <= j < variants.len()
                &&& variants[j].name == name
                &&& forall|k: int| 0 <= k < j ==> (#[trigger] variants[k]).name != name
            },
            None => forall|k: int|
                0 <= k < variants.len() ==> (#[trigger] variants[k]).name != name,
        },
    decreases variants,
{
    if variants.len() > 0 && variants[0].name != name {
        let rest = variants.drop_first();
        lemma_variant_index(rest, name);
        match spec_variant_index(rest, name) {
            Some(j) => {
                assert(variants[j + 1] == rest[j]);
                assert forall|k: int| 0 <= k < j + 1 implies (#[trigger] variants[k]).name
                    != name by {
                    if k > 0 {
                        assert(rest[k - 1] == variants[k]);
                    }
                }
            },
            None => {
                assert forall|k: int| 0 <= k < variants.len() implies (
                #[trigger] variants[k]).name != name by {
                    if k > 0 {
                        assert(rest[k - 1] == variants[k]);
                    }
                }
            },
        }
    }
}

/// The position of the first empty slot, if any.
pub open spec fn spec_first_none(slots: Seq<Option<SpecDecoded>>) -> Option<int>
    decreases slots,
{
    if slots.len() == 0 {
        None
    } else if slots[0] is None {
        Some(0int)
    } else {
        match spec_first_none(slots.drop_first()) {
            Some(j) => Some(j + 1),
            None => None,
        }
    }
}

/// What `spec_first_none` finds: the first empty position, or nothing when
/// every slot is filled.
pub proof fn lemma_first_none(slots: Seq<Option<SpecDecoded>>)
    ensures
        match spec_first_none(slots) {
            Some(j) => {
                &&& 0 <= j < slots.len()
                &&& slots[j] is None
                &&& forall|k: int| 0 <= k < j ==> (#[trigger] slots[k]) is Some
            },
            None => forall|k: int| 0 <= k < slots.len() ==> (#[trigger] slots[k]) is Some,
        },
    decreases slots,
{
    if slots.len() > 0 && slots[0] is Some {
        let rest = slots.drop_first();
        lemma_first_none(rest);
        match spec_first_none(rest) {
            Some(j) => {
                assert(slots[j + 1] == rest[j]);
                assert forall|k: int| 0 <= k < j + 1 implies (#[trigger] slots[k]) is Some by {
                    if k > 0 {
                        assert(rest[k - 1] == slots[k]);
                    }
                }
            },
            None => {
                assert forall|k: int| 0 <= k < slots.len() implies (#[trigger] slots[k])
                    is Some by {
                    if k > 0 {
                        assert(rest[k - 1] == slots[k]);
                    }
                }
            },
        }
    }
}

// ---------------------------------------------------------------------------
// Structural helpers.
// ---------------------------------------------------------------------------

/// The elements of a value that admits sequence-style positional access:
/// list-like, tuple-like, or set-like in the runtime's iteration order.
pub open spec fn seq_elems(v: SpecValue) -> Option<Seq<SpecValue>> {
    match v {
        SpecValue::List(items) => Some(items),
        SpecValue::Tuple(items) => Some(items),
        SpecValue::SetLike(items) => Some(items),
        _ => None,
    }
}

/// The mismatch error for a value that is structurally not what the schema
/// requested.
pub open spec fn mismatch(expected: Category, v: SpecValue) -> SpecError {
    SpecError::TypeMismatch { expected, got: spec_category(v) }
}

/// The schema requests one fixed-width integer.
pub open spec fn is_int_schema(s: SpecSchema) -> bool {
    ||| s is I8
    ||| s is I16
    ||| s is I32
    ||| s is I64
    ||| s is I128
    ||| s is U8
    ||| s is U16
    ||| s is U32
    ||| s is U64
    ||| s is U128
}

/// Fixed-width integer extraction: the value must be an integer and must fit
/// the requested width exactly, else the extraction fails.
pub open spec fn spec_decode_int(v: SpecValue, s: SpecSchema) -> Result<SpecDecoded, SpecError> {
    match v {
        SpecValue::Int(i) => {
            let x = i.spec_value();
            match s {
                SpecSchema::I8 => if -0x80 <= x <= 0x7f {
                    Ok(SpecDecoded::I8(x as i8))
                } else {
                    Err(SpecError::IntOutOfRange)
                },
                SpecSchema::I16 => if -0x8000 <= x <= 0x7fff {
                    Ok(SpecDecoded::I16(x as i16))
                } else {
                    Err(SpecError::IntOutOfRange)
                },
                SpecSchema::I32 => if -0x8000_0000 <= x <= 0x7fff_ffff {
                    Ok(SpecDecoded::I32(x as i32))
                } else {
                    Err(SpecError::IntOutOfRange)
                },
                SpecSchema::I64 => if -0x8000_0000_0000_0000 <= x <= 0x7fff_ffff_ffff_ffff {
                    Ok(SpecDecoded::I64(x as i64))
                } else {
                    Err(SpecError::IntOutOfRange)
                },
                SpecSchema::I128 => if -0x8000_0000_0000_0000_0000_0000_0000_0000 <= x
                    <= 0x7fff_ffff_ffff_ffff_ffff_ffff_ffff_ffff {
                    Ok(SpecDecoded::I128(x as i128))
                } else {
                    Err(SpecError::IntOutOfRange)
                },
                SpecSchema::U8 => if 0 <= x <= 0xff {
                    Ok(SpecDecoded::U8(x as u8))
                } else {
                    Err(SpecError::IntOutOfRange)
                },
                SpecSchema::U16 => if 0 <= x <= 0xffff {
                    Ok(SpecDecoded::U16(x as u16))
                } else {
                    Err(SpecError::IntOutOfRange)
                },
                SpecSchema::U32 => if 0 <= x <= 0xffff_ffff {
                    Ok(SpecDecoded::U32(x as u32))
                } else {
                    Err(SpecError::IntOutOfRange)
                },
                SpecSchema::U64 => if 0 <= x <= 0xffff_ffff_ffff_ffff {
                    Ok(SpecDecoded::U64(x as u64))
                } else {
                    Err(SpecError::IntOutOfRange)
                },
                SpecSchema::U128 => if 0 <= x {
                    Ok(SpecDecoded::U128(x as u128))
                } else {
                    Err(SpecError::IntOutOfRange)
                },
                _ => Err(SpecError::IntOutOfRange),
            }
        },
        _ => Err(mismatch(Category::Integer, v)),
    }
}

/// The two accepted source shapes of a union: a single-entry mapping whose
/// sole text key is the variant tag and whose value is the payload, or bare
/// text naming the variant with no payload.
pub open spec fn spec_union_form(v: SpecValue) -> Result<
    (Seq<char>, Option<SpecValue>),
    SpecError,
> {
    match v {
        SpecValue::Dict(entries) => if entries.len() != 1 {
            Err(SpecError::InvalidUnionRepresentation)
        } else {
            match entries[0].key {
                SpecValue::Str(tag) => Ok((tag, Some(entries[0].value))),
                _ => Err(SpecError::NonTextKey),
            }
        },
        SpecValue::Str(tag) => Ok((tag, None)),
        _ => Err(SpecError::InvalidUnionRepresentation),
    }
}

// ---------------------------------------------------------------------------
// The conversion itself.
// ---------------------------------------------------------------------------

/// The result of decoding `v` against the schema request `s`.
pub open spec fn spec_decode(v: SpecValue, s: SpecSchema) -> Result<SpecDecoded, SpecError>
    decreases val_size(v), schema_size(s),
{
    match s {
        SpecSchema::Any => spec_decode_any(v),
        SpecSchema::Bool => Ok(SpecDecoded::Bool(spec_truthy(v))),
        SpecSchema::I8 => spec_decode_int(v, s),
        SpecSchema::I16 => spec_decode_int(v, s),
        SpecSchema::I32 => spec_decode_int(v, s),
        SpecSchema::I64 => spec_decode_int(v, s),
        SpecSchema::I128 => spec_decode_int(v, s),
        SpecSchema::U8 => spec_decode_int(v, s),
        SpecSchema::U16 => spec_decode_int(v, s),
        SpecSchema::U32 => spec_decode_int(v, s),
        SpecSchema::U64 => spec_decode_int(v, s),
        SpecSchema::U128 => spec_decode_int(v, s),
        SpecSchema::F32 => match v {
            SpecValue::Float(bits) => Ok(SpecDecoded::F32(bits)),
            _ => Err(mismatch(Category::Float, v)),
        },
        SpecSchema::F64 => match v {
            SpecValue::Float(bits) => Ok(SpecDecoded::F64(bits)),
            _ => Err(mismatch(Category::Float, v)),
        },
        SpecSchema::Char => match v {
            SpecValue::Str(t) => if t.len() == 1 {
                Ok(SpecDecoded::Char(t[0]))
            } else {
                Err(SpecError::InvalidLengthChar)
            },
            _ => Err(mismatch(Category::Text, v)),
        },
        SpecSchema::Str => match v {
            SpecValue::Str(t) => Ok(SpecDecoded::Str(t)),
            _ => Err(mismatch(Category::Text, v)),
        },
        SpecSchema::Bytes => match v {
            SpecValue::Bytes(b) => Ok(SpecDecoded::Bytes(b)),
            _ => Err(mismatch(Category::Bytes, v)),
        },
        SpecSchema::Optional(inner) => match v {
            SpecValue::Nil => Ok(SpecDecoded::Absent),
            _ => match spec_decode(v, *inner) {
                Ok(d) => Ok(SpecDecoded::Present(Box::new(d))),
                Err(e) => Err(e),
            },
        },
        SpecSchema::Unit => match v {
            SpecValue::Nil => Ok(SpecDecoded::Unit),
            _ => Err(mismatch(Category::Null, v)),
        },
        SpecSchema::Sequence(inner) => match seq_elems(v) {
            Some(items) => match spec_decode_elems(items, *inner) {
                Ok(ds) => Ok(SpecDecoded::Sequence(ds)),
                Err(e) => Err(e),
            },
            None => Err(mismatch(Category::Sequence, v)),
        },
        SpecSchema::Tuple(ss) => match seq_elems(v) {
            Some(items) => if items.len() != ss.len() {
                Err(SpecError::IncorrectLength { expected: ss.len() as int, got: items.len() as int })
            } else {
                match spec_decode_tuple(items, ss) {
                    Ok(ds) => Ok(SpecDecoded::Sequence(ds)),
                    Err(e) => Err(e),
                }
            },
            None => Err(mismatch(Category::Sequence, v)),
        },
        SpecSchema::Mapping(ks, vs) => match v {
            SpecValue::Dict(entries) => match spec_decode_pairs(entries, *ks, *vs) {
                Ok(ds) => Ok(SpecDecoded::Mapping(ds)),
                Err(e) => Err(e),
            },
            _ => Err(mismatch(Category::Mapping, v)),
        },
        SpecSchema::Record(fields) => match v {
            SpecValue::Dict(entries) => match spec_decode_record(entries, fields) {
                Ok(fs) => Ok(SpecDecoded::Record(fs)),
                Err(e) => Err(e),
            },
            _ => Err(mismatch(Category::Mapping, v)),
        },
        SpecSchema::Union(variants) => match v {
            SpecValue::Dict(entries) => if entries.len() != 1 {
                Err(SpecError::InvalidUnionRepresentation)
            } else {
                match entries[0].key {
                    SpecValue::Str(tag) => match spec_variant_index(variants, tag) {
                        Some(k) => spec_decode_variant(entries[0].value, variants[k]),
                        None => Err(SpecError::UnknownVariant(tag)),
                    },
                    _ => Err(SpecError::NonTextKey),
                }
            },
            SpecValue::Str(tag) => match spec_variant_index(variants, tag) {
                Some(k) => if variants[k].shape is Unit {
                    Ok(SpecDecoded::Variant(tag, SpecVariantValue::Unit))
                } else {
                    Err(SpecError::InvalidUnionRepresentation)
                },
                None => Err(SpecError::UnknownVariant(tag)),
            },
            _ => Err(SpecError::InvalidUnionRepresentation),
        },
        SpecSchema::Untagged(variants) => spec_try_untagged(v, variants),
        SpecSchema::Identifier => match v {
            SpecValue::Str(t) => Ok(SpecDecoded::Str(t)),
            _ => Err(SpecError::NonTextKey),
        },
        SpecSchema::Ignored => Ok(SpecDecoded::Unit),
    }
}

/// The fully-dynamic entry: classify `v` and decode it as whatever shape is
/// actually present.  Integers run through the narrowing ladder; elements of
/// collections re-enter the fully-dynamic decoding.
pub open spec fn spec_decode_any(v: SpecValue) -> Result<SpecDecoded, SpecError>
    decreases val_size(v), 0nat,
{
    match v {
        SpecValue::Nil => Ok(SpecDecoded::Unit),
        SpecValue::Bool(b) => Ok(SpecDecoded::Bool(b)),
        SpecValue::Int(i) => spec_narrow(i),
        SpecValue::Float(bits) => Ok(SpecDecoded::F64(bits)),
        SpecValue::Str(t) => Ok(SpecDecoded::Str(t)),
        SpecValue::Bytes(b) => Ok(SpecDecoded::Bytes(b)),
        SpecValue::List(items) => match spec_decode_elems(items, SpecSchema::Any) {
            Ok(ds) => Ok(SpecDecoded::Sequence(ds)),
            Err(e) => Err(e),
        },
        SpecValue::Tuple(items) => match spec_decode_elems(items, SpecSchema::Any) {
            Ok(ds) => Ok(SpecDecoded::Sequence(ds)),
            Err(e) => Err(e),
        },
        SpecValue::SetLike(items) => match spec_decode_elems(items, SpecSchema::Any) {
            Ok(ds) => Ok(SpecDecoded::Sequence(ds)),
            Err(e) => Err(e),
        },
        SpecValue::Dict(entries) => match spec_decode_pairs(
            entries,
            SpecSchema::Any,
            SpecSchema::Any,
        ) {
            Ok(ds) => Ok(SpecDecoded::Mapping(ds)),
            Err(e) => Err(e),
        },
        SpecValue::Other(name) => Err(SpecError::UnsupportedType(name)),
    }
}

/// Decode every element of an open-ended sequence against the one element
/// schema; the first failure wins.
pub open spec fn spec_decode_elems(items: Seq<SpecValue>, elem: SpecSchema) -> Result<
    Seq<SpecDecoded>,
    SpecError,
>
    decreases val_size_seq(items), schema_size(elem),
{
    if items.len() == 0 {
        Ok(Seq::empty())
    } else {
        match spec_decode_elems(items.drop_last(), elem) {
            Err(e) => Err(e),
            Ok(ds) => match spec_decode(items.last(), elem) {
                Err(e) => Err(e),
                Ok(d) => Ok(ds.push(d)),
            },
        }
    }
}

/// Decode the elements of a fixed-size tuple, position by position; the
/// first failure wins.  Callers have already checked the two lengths agree.
pub open spec fn spec_decode_tuple(items: Seq<SpecValue>, ss: Seq<SpecSchema>) -> Result<
    Seq<SpecDecoded>,
    SpecError,
>
    decreases val_size_seq(items), schema_size_seq(ss),
{
    if items.len() == 0 {
        Ok(Seq::empty())
    } else {
        match spec_decode_tuple(items.drop_last(), ss.drop_last()) {
            Err(e) => Err(e),
            Ok(ds) => match spec_decode(items.last(), ss.last()) {
                Err(e) => Err(e),
                Ok(d) => Ok(ds.push(d)),
            },
        }
    }
}

/// Decode the entries of a homogeneous mapping: within one entry the key
/// first, then the value; the first failure wins.
pub open spec fn spec_decode_pairs(
    entries: Seq<SpecEntry>,
    ks: SpecSchema,
    vs: SpecSchema,
) -> Result<Seq<SpecDecodedEntry>, SpecError>
    decreases val_size_entries(entries), 1 + schema_size(ks) + schema_size(vs),
{
    if entries.len() == 0 {
        Ok(Seq::empty())
    } else {
        match spec_decode_pairs(entries.drop_last(), ks, vs) {
            Err(e) => Err(e),
            Ok(ds) => match spec_decode(entries.last().key, ks) {
                Err(e) => Err(e),
                Ok(dk) => match spec_decode(entries.last().value, vs) {
                    Err(e) => Err(e),
                    Ok(dv) => Ok(ds.push(SpecDecodedEntry { key: dk, value: dv })),
                },
            },
        }
    }
}

/// Walk a mapping's entries against a record's declared fields: every key
/// must be text; a key naming a declared field decodes the entry's value
/// with that field's schema into the field's slot, a second entry for the
/// same field is an error, an undeclared key is ignored.
pub open spec fn spec_record_slots(entries: Seq<SpecEntry>, fields: Seq<SpecField>) -> Result<
    Seq<Option<SpecDecoded>>,
    SpecError,
>
    decreases val_size_entries(entries), fields_size(fields),
{
    if entries.len() == 0 {
        Ok(Seq::new(fields.len(), |j: int| Option::<SpecDecoded>::None))
    } else {
        match spec_record_slots(entries.drop_last(), fields) {
            Err(e) => Err(e),
            Ok(slots) => {
                let e = entries.last();
                match e.key {
                    SpecValue::Str(name) => match spec_field_index(fields, name) {
                        Some(j) => if slots[j] is Some {
                            Err(SpecError::DuplicateField(name))
                        } else {
                            match spec_decode(e.value, fields[j].schema) {
                                Err(er) => Err(er),
                                Ok(d) => Ok(slots.update(j, Some(d))),
                            }
                        },
                        None => Ok(slots),
                    },
                    _ => Err(SpecError::NonTextKey),
                }
            },
        }
    }
}

/// Decode a record: fill the slots from the entries, then require every
/// declared field to be present, reporting the first missing one.
pub open spec fn spec_decode_record(entries: Seq<SpecEntry>, fields: Seq<SpecField>) -> Result<
    Seq<SpecDecodedField>,
    SpecError,
>
    decreases val_size_entries(entries) + 1, fields_size(fields),
{
    match spec_record_slots(entries, fields) {
        Err(e) => Err(e),
        Ok(slots) => match spec_first_none(slots) {
            Some(j) => Err(SpecError::MissingField(fields[j].name)),
            None => Ok(
                Seq::new(
                    fields.len(),
                    |j: int|
                        SpecDecodedField {
                            name: fields[j].name,
                            value: slots[j]->0,
                        },
                ),
            ),
        },
    }
}

/// Decode one declared union variant from its payload value.
pub open spec fn spec_decode_variant(payload: SpecValue, var: SpecVariant) -> Result<
    SpecDecoded,
    SpecError,
>
    decreases val_size(payload), shape_size(var.shape),
{
    match var.shape {
        SpecShape::Unit => Ok(SpecDecoded::Variant(var.name, SpecVariantValue::Unit)),
        SpecShape::Newtype(inner) => match spec_decode(payload, *inner) {
            Ok(d) => Ok(
                SpecDecoded::Variant(var.name, SpecVariantValue::Newtype(Box::new(d))),
            ),
            Err(e) => Err(e),
        },
        SpecShape::Tuple(ss) => match seq_elems(payload) {
            Some(items) => if items.len() != ss.len() {
                Err(SpecError::IncorrectLength { expected: ss.len() as int, got: items.len() as int })
            } else {
                match spec_decode_tuple(items, ss) {
                    Ok(ds) => Ok(SpecDecoded::Variant(var.name, SpecVariantValue::Tuple(ds))),
                    Err(e) => Err(e),
                }
            },
            None => Err(mismatch(Category::Sequence, payload)),
        },
        SpecShape::Record(fields) => match payload {
            SpecValue::Dict(entries) => match spec_decode_record(entries, fields) {
                Ok(fs) => Ok(SpecDecoded::Variant(var.name, SpecVariantValue::Record(fs))),
                Err(e) => Err(e),
            },
            _ => Err(mismatch(Category::Mapping, payload)),
        },
    }
}

/// Try each variant of an untagged union against the same value, in
/// declaration order, committing to the first structural match.
pub open spec fn spec_try_untagged(v: SpecValue, variants: Seq<SpecVariant>) -> Result<
    SpecDecoded,
    SpecError,
>
    decreases val_size(v), variants_size(variants),
{
    if variants.len() == 0 {
        Err(SpecError::UntaggedMismatch)
    } else {
        match spec_match_untagged(v, variants[0]) {
            Ok(d) => Ok(d),
            Err(_) => spec_try_untagged(v, variants.drop_first()),
        }
    }
}

/// A failing prefix decides a whole element sequence: the error of the first
/// failing position survives whatever follows it.
pub proof fn lemma_elems_err(items: Seq<SpecValue>, elem: SpecSchema, j: int)
    requires
        0 <= j <= items.len(),
        spec_decode_elems(items.take(j), elem) is Err,
    ensures
        spec_decode_elems(items, elem) == spec_decode_elems(items.take(j), elem),
    decreases items.len(),
{
    if j == items.len() {
        assert(items.take(j) =~= items);
    } else {
        assert(items.drop_last().take(j) =~= items.take(j));
        lemma_elems_err(items.drop_last(), elem, j);
    }
}

/// A failing prefix decides a whole tuple, in the same way.
pub proof fn lemma_tuple_err(items: Seq<SpecValue>, ss: Seq<SpecSchema>, j: int)
    requires
        items.len() == ss.len(),
        0 <= j <= items.len(),
        spec_decode_tuple(items.take(j), ss.take(j)) is Err,
    ensures
        spec_decode_tuple(items, ss) == spec_decode_tuple(items.take(j), ss.take(j)),
    decreases items.len(),
{
    if j == items.len() {
        assert(items.take(j) =~= items);
        assert(ss.take(j) =~= ss);
    } else {
        assert(items.drop_last().take(j) =~= items.take(j));
        assert(ss.drop_last().take(j) =~= ss.take(j));
        lemma_tuple_err(items.drop_last(), ss.drop_last(), j);
    }
}

/// A failing prefix decides a whole mapping, in the same way.
pub proof fn lemma_pairs_err(entries: Seq<SpecEntry>, ks: SpecSchema, vs: SpecSchema, j: int)
    requires
        0 <= j <= entries.len(),
        spec_decode_pairs(entries.take(j), ks, vs) is Err,
    ensures
        spec_decode_pairs(entries, ks, vs) == spec_decode_pairs(entries.take(j), ks, vs),
    decreases entries.len(),
{
    if j == entries.len() {
        assert(entries.take(j) =~= entries);
    } else {
        assert(entries.drop_last().take(j) =~= entries.take(j));
        lemma_pairs_err(entries.drop_last(), ks, vs, j);
    }
}

/// A failing prefix decides a whole record walk, in the same way.
pub proof fn lemma_slots_err(entries: Seq<SpecEntry>, fields: Seq<SpecField>, j: int)
    requires
        0 <= j <= entries.len(),
        spec_record_slots(entries.take(j), fields) is Err,
    ensures
        spec_record_slots(entries, fields) == spec_record_slots(entries.take(j), fields),
    decreases entries.len(),
{
    if j == entries.len() {
        assert(entries.take(j) =~= entries);
    } else {
        assert(entries.drop_last().take(j) =~= entries.take(j));
        lemma_slots_err(entries.drop_last(), fields, j);
    }
}

/// Match one untagged variant structurally: a unit variant takes the absence
/// sentinel, the payload shapes take the value itself.
pub open spec fn spec_match_untagged(v: SpecValue, var: SpecVariant) -> Result<
    SpecDecoded,
    SpecError,
>
    decreases val_size(v), shape_size(var.shape) + 1,
{
    match var.shape {
        SpecShape::Unit => match v {
            SpecValue::Nil => Ok(SpecDecoded::Variant(var.name, SpecVariantValue::Unit)),
            _ => Err(mismatch(Category::Null, v)),
        },
        _ => spec_decode_variant(v, var),
    }
}

} // verus!
