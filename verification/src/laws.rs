//! The engine's laws: properties of the conversion semantics that hold for
//! every input, stated and proved over the specification functions of
//! [`crate::sem`] and [`crate::narrow`].

use vstd::prelude::*;

use crate::decoded::{SpecDecoded, SpecVariantValue};
use crate::error::SpecError;
use crate::narrow::spec_narrow;
use crate::schema::{SpecField, SpecSchema, SpecVariant};
use crate::sem::{
    lemma_field_index, lemma_first_none, schema_size, shape_size, spec_decode,
    spec_field_index, spec_first_none, spec_match_untagged, spec_record_slots,
    spec_try_untagged, spec_variant_index, variants_size,
};
use crate::value::{DynInt, SpecEntry, SpecValue};

verus! {

// ---------------------------------------------------------------------------
// Narrowing: round-trip fidelity and smallest-width choice.
// ---------------------------------------------------------------------------

/// The integer a decoded value carries, if it carries one.
pub open spec fn decoded_int_value(d: SpecDecoded) -> Option<int> {
    match d {
        SpecDecoded::I8(x) => Some(x as int),
        SpecDecoded::I16(x) => Some(x as int),
        SpecDecoded::I32(x) => Some(x as int),
        SpecDecoded::I64(x) => Some(x as int),
        SpecDecoded::I128(x) => Some(x as int),
        SpecDecoded::U8(x) => Some(x as int),
        SpecDecoded::U16(x) => Some(x as int),
        SpecDecoded::U32(x) => Some(x as int),
        SpecDecoded::U64(x) => Some(x as int),
        SpecDecoded::U128(x) => Some(x as int),
        _ => None,
    }
}

/// The bit width of a decoded integer; zero for anything else.
pub open spec fn decoded_int_width(d: SpecDecoded) -> nat {
    match d {
        SpecDecoded::I8(_) => 8,
        SpecDecoded::U8(_) => 8,
        SpecDecoded::I16(_) => 16,
        SpecDecoded::U16(_) => 16,
        SpecDecoded::I32(_) => 32,
        SpecDecoded::U32(_) => 32,
        SpecDecoded::I64(_) => 64,
        SpecDecoded::U64(_) => 64,
        SpecDecoded::I128(_) => 128,
        SpecDecoded::U128(_) => 128,
        _ => 0,
    }
}

/// The decoded value is one of the unsigned widths.
pub open spec fn decoded_is_unsigned(d: SpecDecoded) -> bool {
    ||| d is U8
    ||| d is U16
    ||| d is U32
    ||| d is U64
    ||| d is U128
}

/// Round-trip numeric width.  Narrowing an integer succeeds exactly when the
/// dynamic object model can extract it at some width; the result carries the
/// original value unchanged, on the unsigned ladder for a non-negative
/// origin and the signed ladder for a negative one; and the chosen width is
/// the smallest width of that ladder that holds the value.
pub proof fn lemma_narrow_round_trip(i: DynInt)
    requires
        i.wf(),
    ensures
        spec_narrow(i) is Ok <==> i.spec_value() >= -0x8000_0000_0000_0000_0000_0000_0000_0000,
        spec_narrow(i) matches Ok(d) ==> {
            let x = i.spec_value();
            &&& decoded_int_value(d) == Some(x)
            &&& decoded_is_unsigned(d) == !i.negative
            &&& !i.negative ==> (decoded_int_width(d) == 8 <==> x <= 0xff)
            &&& !i.negative ==> (decoded_int_width(d) == 16 <==> 0xff < x <= 0xffff)
            &&& !i.negative ==> (decoded_int_width(d) == 32 <==> 0xffff < x <= 0xffff_ffff)
            &&& !i.negative ==> (decoded_int_width(d) == 64 <==> 0xffff_ffff < x
                <= 0xffff_ffff_ffff_ffff)
            &&& !i.negative ==> (decoded_int_width(d) == 128 <==> 0xffff_ffff_ffff_ffff < x)
            &&& i.negative ==> (decoded_int_width(d) == 8 <==> -0x80 <= x)
            &&& i.negative ==> (decoded_int_width(d) == 16 <==> -0x8000 <= x < -0x80)
            &&& i.negative ==> (decoded_int_width(d) == 32 <==> -0x8000_0000 <= x < -0x8000)
            &&& i.negative ==> (decoded_int_width(d) == 64 <==> -0x8000_0000_0000_0000 <= x
                < -0x8000_0000)
            &&& i.negative ==> (decoded_int_width(d) == 128 <==> x < -0x8000_0000_0000_0000)
        },
{
}

// ---------------------------------------------------------------------------
// Exact-length enforcement, and indifference to the sequence's runtime kind.
// ---------------------------------------------------------------------------

/// Decoding a fixed-size tuple from a sequence of the wrong length fails at
/// construction with the expected and actual counts, before any element is
/// looked at.
pub proof fn lemma_tuple_exact_length(items: Seq<SpecValue>, ss: Seq<SpecSchema>)
    requires
        items.len() != ss.len(),
    ensures
        spec_decode(SpecValue::List(items), SpecSchema::Tuple(ss)) == Err::<
            SpecDecoded,
            SpecError,
        >(SpecError::IncorrectLength { expected: ss.len() as int, got: items.len() as int }),
        spec_decode(SpecValue::Tuple(items), SpecSchema::Tuple(ss)) == Err::<
            SpecDecoded,
            SpecError,
        >(SpecError::IncorrectLength { expected: ss.len() as int, got: items.len() as int }),
{
}

/// A list-like and a tuple-like sequence with the same elements decode
/// identically under every schema request.
pub proof fn lemma_list_tuple_agree(items: Seq<SpecValue>, s: SpecSchema)
    ensures
        spec_decode(SpecValue::List(items), s) == spec_decode(SpecValue::Tuple(items), s),
    decreases schema_size(s),
{
    let l = SpecValue::List(items);
    let t = SpecValue::Tuple(items);
    reveal_with_fuel(spec_decode, 3);
    match s {
        SpecSchema::Optional(inner) => {
            lemma_list_tuple_agree(items, *inner);
        },
        SpecSchema::Untagged(variants) => {
            lemma_try_untagged_agree(items, variants);
        },
        _ => {},
    }
}

/// The untagged search cannot tell a list-like from a tuple-like source
/// either.
proof fn lemma_try_untagged_agree(items: Seq<SpecValue>, variants: Seq<SpecVariant>)
    ensures
        spec_try_untagged(SpecValue::List(items), variants) == spec_try_untagged(
            SpecValue::Tuple(items),
            variants,
        ),
    decreases variants_size(variants),
{
    if variants.len() > 0 {
        lemma_match_untagged_agree(items, variants[0]);
        lemma_try_untagged_agree(items, variants.drop_first());
    }
}

/// One untagged variant matches a list-like and a tuple-like source alike.
proof fn lemma_match_untagged_agree(items: Seq<SpecValue>, var: SpecVariant)
    ensures
        spec_match_untagged(SpecValue::List(items), var) == spec_match_untagged(
            SpecValue::Tuple(items),
            var,
        ),
    decreases shape_size(var.shape) + 1,
{
    match var.shape {
        crate::schema::SpecShape::Newtype(inner) => {
            lemma_list_tuple_agree(items, *inner);
        },
        _ => {},
    }
}

// ---------------------------------------------------------------------------
// The fully-dynamic entry point is a function of the value alone.
// ---------------------------------------------------------------------------

/// Idempotent dynamic entry: any two conversions of the same dynamic value
/// through the fully-dynamic entry point produce structurally equal results.
/// The engine's contract pins each result to `spec_decode_any` of the input,
/// so the statement closes by itself; it is recorded here because the
/// property is one the engine promises its callers.
pub proof fn lemma_dynamic_entry_idempotent(
    v: SpecValue,
    r1: Result<SpecDecoded, SpecError>,
    r2: Result<SpecDecoded, SpecError>,
)
    requires
        r1 == crate::sem::spec_decode_any(v),
        r2 == crate::sem::spec_decode_any(v),
    ensures
        r1 == r2,
{
}

// ---------------------------------------------------------------------------
// Record field completeness.
// ---------------------------------------------------------------------------

/// The index of the first entry whose key is the text `name`, if any.
pub open spec fn spec_entry_index(entries: Seq<SpecEntry>, name: Seq<char>) -> Option<int>
    decreases entries,
{
    if entries.len() == 0 {
        None
    } else if entries[0].key == SpecValue::Str(name) {
        Some(0int)
    } else {
        match spec_entry_index(entries.drop_first(), name) {
            Some(k) => Some(k + 1),
            None => None,
        }
    }
}

/// What `spec_entry_index` finds: the first entry keyed by `name`, or
/// nothing when no entry carries that key.
pub proof fn lemma_entry_index(entries: Seq<SpecEntry>, name: Seq<char>)
    ensures
        match spec_entry_index(entries, name) {
            Some(k) => {
                &&& 0 <= k < entries.len()
                &&& entries[k].key == SpecValue::Str(name)
                &&& forall|i: int|
                    0 <= i < k ==> (#[trigger] entries[i]).key != SpecValue::Str(name)
            },
            None => forall|i: int|
                0 <= i < entries.len() ==> (#[trigger] entries[i]).key != SpecValue::Str(name),
        },
    decreases entries,
{
    if entries.len() > 0 && entries[0].key != SpecValue::Str(name) {
        let rest = entries.drop_first();
        lemma_entry_index(rest, name);
        match spec_entry_index(rest, name) {
            Some(k) => {
                assert(entries[k + 1] == rest[k]);
                assert forall|i: int| 0 <= i < k + 1 implies (#[trigger] entries[i]).key
                    != SpecValue::Str(name) by {
                    if i > 0 {
                        assert(rest[i - 1] == entries[i]);
                    }
                }
            },
            None => {
                assert forall|i: int| 0 <= i < entries.len() implies (#[trigger] entries[i]).key
                    != SpecValue::Str(name) by {
                    if i > 0 {
                        assert(rest[i - 1] == entries[i]);
                    }
                }
            },
        }
    }
}

/// Appending one entry to the walked prefix extends the key search on the
/// right.
proof fn lemma_entry_index_push(prefix: Seq<SpecEntry>, e: SpecEntry, name: Seq<char>)
    ensures
        spec_entry_index(prefix.push(e), name) == (match spec_entry_index(prefix, name) {
            Some(k) => Some(k),
            None => if e.key == SpecValue::Str(name) {
                Some(prefix.len() as int)
            } else {
                None::<int>
            },
        }),
    decreases prefix.len(),
{
    reveal_with_fuel(spec_entry_index, 3);
    if prefix.len() == 0 {
        assert(prefix.push(e)[0] == e);
        assert(prefix.push(e).drop_first() =~= Seq::<SpecEntry>::empty());
        assert(spec_entry_index(prefix, name) is None);
        if e.key == SpecValue::Str(name) {
            assert(spec_entry_index(prefix.push(e), name) == Some(0int));
        } else {
            assert(spec_entry_index(prefix.push(e), name) is None);
        }
    } else {
        let rest = prefix.drop_first();
        assert(prefix.push(e)[0] == prefix[0]);
        assert(prefix.push(e).drop_first() =~= rest.push(e));
        lemma_entry_index_push(rest, e, name);
        if prefix[0].key == SpecValue::Str(name) {
            assert(spec_entry_index(prefix.push(e), name) == Some(0int));
            assert(spec_entry_index(prefix, name) == Some(0int));
        } else {
            assert(spec_entry_index(prefix.push(e), name) == (match spec_entry_index(
                rest.push(e),
                name,
            ) {
                Some(k) => Some(k + 1),
                None => None::<int>,
            }));
            assert(spec_entry_index(prefix, name) == (match spec_entry_index(rest, name) {
                Some(k) => Some(k + 1),
                None => None::<int>,
            }));
        }
    }
}

/// The well-formed record-decoding scenario: every key of the dynamic
/// mapping is text and the keys are distinct (as a mapping's are), the
/// declared field names are distinct, and the value of every entry that
/// names a declared field decodes under that field's schema.  Entries whose
/// keys name no declared field are unconstrained: the engine ignores them.
pub open spec fn record_input_ok(entries: Seq<SpecEntry>, fields: Seq<SpecField>) -> bool {
    &&& forall|k: int| 0 <= k < entries.len() ==> (#[trigger] entries[k]).key is Str
    &&& forall|k1: int, k2: int|
        0 <= k1 < k2 < entries.len() ==> (#[trigger] entries[k1]).key != (
        #[trigger] entries[k2]).key
    &&& forall|j1: int, j2: int|
        0 <= j1 < j2 < fields.len() ==> (#[trigger] fields[j1]).name != (
        #[trigger] fields[j2]).name
    &&& forall|k: int, j: int|
        0 <= k < entries.len() && 0 <= j < fields.len() && (#[trigger] entries[k]).key
            == SpecValue::Str((#[trigger] fields[j]).name) ==> spec_decode(
            entries[k].value,
            fields[j].schema,
        ) is Ok
}

/// Walking a well-formed mapping fills exactly the slots of the fields that
/// appear among the keys, each with its entry's decoded value.
proof fn lemma_slots_filled(entries: Seq<SpecEntry>, fields: Seq<SpecField>)
    requires
        record_input_ok(entries, fields),
    ensures
        spec_record_slots(entries, fields) is Ok,
        spec_record_slots(entries, fields)->Ok_0.len() == fields.len(),
        forall|j: int|
            0 <= j < fields.len() ==> spec_record_slots(entries, fields)->Ok_0[j] == (match
            spec_entry_index(entries, (#[trigger] fields[j]).name) {
                Some(k) => Some(spec_decode(entries[k].value, fields[j].schema)->Ok_0),
                None => None::<SpecDecoded>,
            }),
    decreases entries.len(),
{
    if entries.len() == 0 {
    } else {
        let prefix = entries.drop_last();
        let e = entries.last();
        assert(record_input_ok(prefix, fields)) by {
            assert(forall|k: int| 0 <= k < prefix.len() ==> prefix[k] == #[trigger] entries[k]);
        }
        lemma_slots_filled(prefix, fields);
        let slots = spec_record_slots(prefix, fields)->Ok_0;
        assert(entries =~= prefix.push(e));
        assert(e.key is Str);
        let nm = e.key->Str_0;
        assert(e.key == SpecValue::Str(nm));
        lemma_field_index(fields, nm);
        lemma_entry_index(prefix, nm);
        match spec_field_index(fields, nm) {
            Some(j0) => {
                // No earlier entry carries this key, so the slot is empty and
                // the duplicate check passes.
                assert(spec_entry_index(prefix, nm) is None) by {
                    match spec_entry_index(prefix, nm) {
                        Some(k0) => {
                            assert(prefix[k0] == entries[k0]);
                        },
                        None => {},
                    }
                }
                assert(slots[j0] is None);
                assert(spec_decode(e.value, fields[j0].schema) is Ok);
                let d = spec_decode(e.value, fields[j0].schema)->Ok_0;
                assert(spec_record_slots(entries, fields)->Ok_0 == slots.update(
                    j0,
                    Some(d),
                ));
                assert forall|j: int| 0 <= j < fields.len() implies spec_record_slots(
                    entries,
                    fields,
                )->Ok_0[j] == (match spec_entry_index(entries, (#[trigger] fields[j]).name) {
                    Some(k) => Some(spec_decode(entries[k].value, fields[j].schema)->Ok_0),
                    None => None::<SpecDecoded>,
                }) by {
                    lemma_entry_index_push(prefix, e, fields[j].name);
                    if j == j0 {
                        assert(spec_entry_index(entries, nm) == Some(prefix.len() as int));
                        assert(entries[prefix.len() as int] == e);
                    } else {
                        lemma_field_index(fields, nm);
                        assert(fields[j0].name == nm);
                        assert(fields[j].name != nm);
                        lemma_entry_index(prefix, fields[j].name);
                        match spec_entry_index(prefix, fields[j].name) {
                            Some(k) => {
                                assert(prefix[k] == entries[k]);
                            },
                            None => {},
                        }
                    }
                }
            },
            None => {
                assert(spec_record_slots(entries, fields)->Ok_0 == slots);
                assert forall|j: int| 0 <= j < fields.len() implies spec_record_slots(
                    entries,
                    fields,
                )->Ok_0[j] == (match spec_entry_index(entries, (#[trigger] fields[j]).name) {
                    Some(k) => Some(spec_decode(entries[k].value, fields[j].schema)->Ok_0),
                    None => None::<SpecDecoded>,
                }) by {
                    lemma_entry_index_push(prefix, e, fields[j].name);
                    lemma_field_index(fields, nm);
                    assert(fields[j].name != nm);
                    lemma_entry_index(prefix, fields[j].name);
                    match spec_entry_index(prefix, fields[j].name) {
                        Some(k) => {
                            assert(prefix[k] == entries[k]);
                        },
                        None => {},
                    }
                }
            },
        }
    }
}

/// Record field completeness, the failing half: if the first declared field
/// missing from the mapping's keys is field `j`, the record fails with a
/// missing-field error naming exactly that field.
pub proof fn lemma_record_missing(entries: Seq<SpecEntry>, fields: Seq<SpecField>, j: int)
    requires
        record_input_ok(entries, fields),
        0 <= j < fields.len(),
        spec_entry_index(entries, fields[j].name) is None,
        forall|j2: int|
            0 <= j2 < j ==> spec_entry_index(entries, (#[trigger] fields[j2]).name) is Some,
    ensures
        spec_decode(SpecValue::Dict(entries), SpecSchema::Record(fields)) == Err::<
            SpecDecoded,
            SpecError,
        >(SpecError::MissingField(fields[j].name)),
{
    reveal_with_fuel(spec_decode, 2);
    lemma_slots_filled(entries, fields);
    let slots = spec_record_slots(entries, fields)->Ok_0;
    lemma_first_none(slots);
    assert(slots[j] is None);
    assert(forall|j2: int| 0 <= j2 < j ==> (#[trigger] slots[j2]) is Some);
    assert(spec_first_none(slots) == Some(j));
}

/// Record field completeness, the succeeding half: if every declared field
/// appears among the mapping's keys, the record decodes; it holds exactly
/// the declared fields in declaration order, each with its entry's decoded
/// value, and entries for undeclared keys are ignored.
pub proof fn lemma_record_complete(entries: Seq<SpecEntry>, fields: Seq<SpecField>)
    requires
        record_input_ok(entries, fields),
        forall|j: int|
            0 <= j < fields.len() ==> spec_entry_index(entries, (#[trigger] fields[j]).name)
                is Some,
    ensures
        spec_decode(SpecValue::Dict(entries), SpecSchema::Record(fields)) == Ok::<
            SpecDecoded,
            SpecError,
        >(
            SpecDecoded::Record(
                Seq::new(
                    fields.len(),
                    |j: int|
                        crate::decoded::SpecDecodedField {
                            name: fields[j].name,
                            value: spec_decode(
                                entries[spec_entry_index(entries, fields[j].name)->0].value,
                                fields[j].schema,
                            )->Ok_0,
                        },
                ),
            ),
        ),
{
    reveal_with_fuel(spec_decode, 2);
    lemma_slots_filled(entries, fields);
    let slots = spec_record_slots(entries, fields)->Ok_0;
    lemma_first_none(slots);
    assert(forall|j: int| 0 <= j < slots.len() ==> (#[trigger] slots[j]) is Some);
    assert(spec_first_none(slots) is None) by {
        match spec_first_none(slots) {
            Some(j0) => {
                assert(slots[j0] is Some);
            },
            None => {},
        }
    }
    assert(Seq::new(
        fields.len(),
        |j: int| crate::decoded::SpecDecodedField { name: fields[j].name, value: slots[j]->0 },
    ) =~= Seq::new(
        fields.len(),
        |j: int|
            crate::decoded::SpecDecodedField {
                name: fields[j].name,
                value: spec_decode(
                    entries[spec_entry_index(entries, fields[j].name)->0].value,
                    fields[j].schema,
                )->Ok_0,
            },
    ));
}

// ---------------------------------------------------------------------------
// Union representation.
// ---------------------------------------------------------------------------

/// The mapping form of a union must have exactly one entry; any other entry
/// count is an invalid representation, whatever the entries hold.
pub proof fn lemma_union_single_entry(entries: Seq<SpecEntry>, variants: Seq<SpecVariant>)
    requires
        entries.len() != 1,
    ensures
        spec_decode(SpecValue::Dict(entries), SpecSchema::Union(variants)) == Err::<
            SpecDecoded,
            SpecError,
        >(SpecError::InvalidUnionRepresentation),
{
}

/// Bare text decodes a union exactly when it names a declared unit variant:
/// the text is the tag, there is no payload.
pub proof fn lemma_union_bare_text(tag: Seq<char>, variants: Seq<SpecVariant>)
    ensures
        spec_decode(SpecValue::Str(tag), SpecSchema::Union(variants)) == (match
            spec_variant_index(variants, tag) {
            Some(k) => if variants[k].shape is Unit {
                Ok::<SpecDecoded, SpecError>(
                    SpecDecoded::Variant(tag, SpecVariantValue::Unit),
                )
            } else {
                Err(SpecError::InvalidUnionRepresentation)
            },
            None => Err(SpecError::UnknownVariant(tag)),
        }),
{
}

// ---------------------------------------------------------------------------
// Untagged unions: first structural match wins.
// ---------------------------------------------------------------------------

/// If every variant before `k` fails structurally and variant `k` matches,
/// the untagged union decodes to variant `k`'s result.
pub proof fn lemma_untagged_first_match(v: SpecValue, variants: Seq<SpecVariant>, k: int)
    requires
        0 <= k < variants.len(),
        forall|i: int| 0 <= i < k ==> spec_match_untagged(v, #[trigger] variants[i]) is Err,
        spec_match_untagged(v, variants[k]) is Ok,
    ensures
        spec_decode(v, SpecSchema::Untagged(variants)) == spec_match_untagged(v, variants[k]),
{
    lemma_try_first_match(v, variants, k);
}

/// The same statement for the search itself.
proof fn lemma_try_first_match(v: SpecValue, variants: Seq<SpecVariant>, k: int)
    requires
        0 <= k < variants.len(),
        forall|i: int| 0 <= i < k ==> spec_match_untagged(v, #[trigger] variants[i]) is Err,
        spec_match_untagged(v, variants[k]) is Ok,
    ensures
        spec_try_untagged(v, variants) == spec_match_untagged(v, variants[k]),
    decreases k,
{
    if k > 0 {
        let rest = variants.drop_first();
        assert forall|i: int| 0 <= i < k - 1 implies spec_match_untagged(
            v,
            #[trigger] rest[i],
        ) is Err by {
            assert(rest[i] == variants[i + 1]);
        }
        assert(rest[k - 1] == variants[k]);
        lemma_try_first_match(v, rest, k - 1);
    }
}

} // verus!
