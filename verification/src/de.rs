//! The deserialization engine: the executable orchestrator, proved equal to
//! the specification semantics in [`crate::sem`].
//!
//! [`decode`] is the general entry point; the caller's target type supplies
//! the schema request.  [`decode_any`] is the fully-dynamic entry point,
//! driven by the classifier alone.

use vstd::prelude::*;

use crate::classify::{category_of, truthy};
use crate::decoded::{Decoded, DecodedEntry, DecodedField, VariantValue};
use crate::decoded::{
    view_decoded, view_decoded_entries, view_decoded_fields, view_decodeds,
};
use crate::error::{Category, DecodeError};
use crate::narrow::narrow_int;
use crate::schema::{FieldSchema, Schema, VariantSchema, VariantShape};
use crate::schema::{
    lemma_view_fields, lemma_view_schemas, lemma_view_variants, view_fields, view_schemas,
    view_variants,
};
use crate::decoded::{SpecDecoded, SpecDecodedEntry, SpecDecodedField};
use crate::error::SpecError;
use crate::schema::SpecVariant;
use crate::sem::{
    is_int_schema, lemma_elems_err, lemma_field_index, lemma_first_none, lemma_pairs_err,
    lemma_schema_size_seq_elem, lemma_slots_err, lemma_tuple_err, lemma_val_size_entries_elem,
    lemma_val_size_seq_elem, lemma_variant_index, lemma_variants_size_elem, schema_size,
    schema_size_seq, shape_size, spec_decode, spec_decode_any, spec_decode_elems,
    spec_decode_int, spec_decode_pairs, spec_decode_record, spec_decode_tuple,
    spec_decode_variant, spec_field_index, spec_match_untagged, spec_record_slots,
    spec_try_untagged, spec_variant_index, val_size, val_size_entries, val_size_seq,
};
use crate::value::{
    lemma_view_entries, lemma_view_values, view_entries, view_value, view_values,
};
use crate::value::{DictEntry, DynValue, SpecEntry};
use crate::view_result;

verus! {

/// Extract a fixed-width integer exactly as the schema requests.
fn decode_int(v: &DynValue, schema: &Schema) -> (r: Result<Decoded, DecodeError>)
    requires
        is_int_schema(schema.deep_view()),
    ensures
        view_result(r) == spec_decode_int(v.deep_view(), schema.deep_view()),
{
    match v {
        DynValue::Int(i) => {
            let neg = i.negative;
            let m = i.magnitude;
            match schema {
                Schema::I8 => {
                    if !neg && m <= 0x7f {
                        Ok(Decoded::I8(m as i8))
                    } else if neg && m <= 0x7f {
                        Ok(Decoded::I8(-(m as i8)))
                    } else if neg && m == 0x80 {
                        Ok(Decoded::I8(i8::MIN))
                    } else {
                        Err(DecodeError::IntOutOfRange)
                    }
                },
                Schema::I16 => {
                    if !neg && m <= 0x7fff {
                        Ok(Decoded::I16(m as i16))
                    } else if neg && m <= 0x7fff {
                        Ok(Decoded::I16(-(m as i16)))
                    } else if neg && m == 0x8000 {
                        Ok(Decoded::I16(i16::MIN))
                    } else {
                        Err(DecodeError::IntOutOfRange)
                    }
                },
                Schema::I32 => {
                    if !neg && m <= 0x7fff_ffff {
                        Ok(Decoded::I32(m as i32))
                    } else if neg && m <= 0x7fff_ffff {
                        Ok(Decoded::I32(-(m as i32)))
                    } else if neg && m == 0x8000_0000 {
                        Ok(Decoded::I32(i32::MIN))
                    } else {
                        Err(DecodeError::IntOutOfRange)
                    }
                },
                Schema::I64 => {
                    if !neg && m <= 0x7fff_ffff_ffff_ffff {
                        Ok(Decoded::I64(m as i64))
                    } else if neg && m <= 0x7fff_ffff_ffff_ffff {
                        Ok(Decoded::I64(-(m as i64)))
                    } else if neg && m == 0x8000_0000_0000_0000 {
                        Ok(Decoded::I64(i64::MIN))
                    } else {
                        Err(DecodeError::IntOutOfRange)
                    }
                },
                Schema::I128 => {
                    if !neg && m <= 0x7fff_ffff_ffff_ffff_ffff_ffff_ffff_ffff {
                        Ok(Decoded::I128(m as i128))
                    } else if neg && m <= 0x7fff_ffff_ffff_ffff_ffff_ffff_ffff_ffff {
                        Ok(Decoded::I128(-(m as i128)))
                    } else if neg && m == 0x8000_0000_0000_0000_0000_0000_0000_0000 {
                        Ok(Decoded::I128(i128::MIN))
                    } else {
                        Err(DecodeError::IntOutOfRange)
                    }
                },
                Schema::U8 => {
                    if (!neg || m == 0) && m <= 0xff {
                        Ok(Decoded::U8(m as u8))
                    } else {
                        Err(DecodeError::IntOutOfRange)
                    }
                },
                Schema::U16 => {
                    if (!neg || m == 0) && m <= 0xffff {
                        Ok(Decoded::U16(m as u16))
                    } else {
                        Err(DecodeError::IntOutOfRange)
                    }
                },
                Schema::U32 => {
                    if (!neg || m == 0) && m <= 0xffff_ffff {
                        Ok(Decoded::U32(m as u32))
                    } else {
                        Err(DecodeError::IntOutOfRange)
                    }
                },
                Schema::U64 => {
                    if (!neg || m == 0) && m <= 0xffff_ffff_ffff_ffff {
                        Ok(Decoded::U64(m as u64))
                    } else {
                        Err(DecodeError::IntOutOfRange)
                    }
                },
                Schema::U128 => {
                    if !neg || m == 0 {
                        Ok(Decoded::U128(m))
                    } else {
                        Err(DecodeError::IntOutOfRange)
                    }
                },
                _ => Err(DecodeError::IntOutOfRange),
            }
        },
        _ => Err(
            DecodeError::TypeMismatch { expected: Category::Integer, got: category_of(v) },
        ),
    }
}

/// Find the first declared field called `name`.
fn find_field(fields: &Vec<FieldSchema>, name: &String) -> (r: Option<usize>)
    ensures
        match r {
            Some(j) => j < fields.len() && spec_field_index(view_fields(fields@), name@) == Some(
                j as int,
            ),
            None => spec_field_index(view_fields(fields@), name@) is None,
        },
{
    let ghost fv = view_fields(fields@);
    proof {
        lemma_view_fields(fields@);
        lemma_field_index(fv, name@);
    }
    let mut j: usize = 0;
    while j < fields.len()
        invariant
            j <= fields.len(),
            fv == view_fields(fields@),
            fv.len() == fields@.len(),
            forall|k: int| 0 <= k < fields@.len() ==> fv[k] == (#[trigger] fields@[k]).deep_view(),
            forall|k: int| 0 <= k < j ==> (#[trigger] fv[k]).name != name@,
        decreases fields.len() - j,
    {
        if fields[j].name == *name {
            proof {
                lemma_field_index(fv, name@);
            }
            return Some(j);
        }
        j += 1;
    }
    proof {
        lemma_field_index(fv, name@);
    }
    None
}

/// Find the first declared variant called `name`.
fn find_variant(variants: &Vec<VariantSchema>, name: &String) -> (r: Option<usize>)
    ensures
        match r {
            Some(j) => j < variants.len() && spec_variant_index(view_variants(variants@), name@)
                == Some(j as int),
            None => spec_variant_index(view_variants(variants@), name@) is None,
        },
{
    let ghost vv = view_variants(variants@);
    proof {
        lemma_view_variants(variants@);
        lemma_variant_index(vv, name@);
    }
    let mut j: usize = 0;
    while j < variants.len()
        invariant
            j <= variants.len(),
            vv == view_variants(variants@),
            vv.len() == variants@.len(),
            forall|k: int|
                0 <= k < variants@.len() ==> vv[k] == (#[trigger] variants@[k]).deep_view(),
            forall|k: int| 0 <= k < j ==> (#[trigger] vv[k]).name != name@,
        decreases variants.len() - j,
    {
        if variants[j].name == *name {
            proof {
                lemma_variant_index(vv, name@);
            }
            return Some(j);
        }
        j += 1;
    }
    proof {
        lemma_variant_index(vv, name@);
    }
    None
}

/// Copy a byte buffer out of the dynamic object model.
fn copy_bytes(b: &Vec<u8>) -> (r: Vec<u8>)
    ensures
        r@ == b@,
{
    let mut out: Vec<u8> = Vec::new();
    let mut i: usize = 0;
    while i < b.len()
        invariant
            i <= b.len(),
            out@ == b@.take(i as int),
        decreases b.len() - i,
    {
        out.push(b[i]);
        proof {
            assert(b@.take(i + 1) =~= b@.take(i as int).push(b@[i as int]));
        }
        i += 1;
    }
    proof {
        assert(b@.take(b@.len() as int) =~= b@);
    }
    out
}

/// Borrow the elements of a value that admits sequence-style positional
/// access.
fn seq_items<'a>(v: &'a DynValue) -> (r: Option<&'a Vec<DynValue>>)
    ensures
        match r {
            Some(items) => crate::sem::seq_elems(v.deep_view()) == Some(view_values(items@)),
            None => crate::sem::seq_elems(v.deep_view()) is None,
        },
{
    match v {
        DynValue::List(items) => Some(items),
        DynValue::Tuple(items) => Some(items),
        DynValue::SetLike(items) => Some(items),
        _ => None,
    }
}

/// Decode `v` against the schema request `schema`.  This is the general
/// entry point; every other operation of the engine is reached from here.
pub fn decode(v: &DynValue, schema: &Schema) -> (r: Result<Decoded, DecodeError>)
    ensures
        view_result(r) == spec_decode(v.deep_view(), schema.deep_view()),
    decreases val_size(v.deep_view()), schema_size(schema.deep_view()),
{
    proof {
        reveal_with_fuel(view_decoded, 3);
    }
    match schema {
        Schema::Any => decode_any(v),
        Schema::Bool => Ok(Decoded::Bool(truthy(v))),
        Schema::I8 => decode_int(v, schema),
        Schema::I16 => decode_int(v, schema),
        Schema::I32 => decode_int(v, schema),
        Schema::I64 => decode_int(v, schema),
        Schema::I128 => decode_int(v, schema),
        Schema::U8 => decode_int(v, schema),
        Schema::U16 => decode_int(v, schema),
        Schema::U32 => decode_int(v, schema),
        Schema::U64 => decode_int(v, schema),
        Schema::U128 => decode_int(v, schema),
        Schema::F32 => match v {
            DynValue::Float(bits) => Ok(Decoded::F32(*bits)),
            _ => Err(DecodeError::TypeMismatch { expected: Category::Float, got: category_of(v) }),
        },
        Schema::F64 => match v {
            DynValue::Float(bits) => Ok(Decoded::F64(*bits)),
            _ => Err(DecodeError::TypeMismatch { expected: Category::Float, got: category_of(v) }),
        },
        Schema::Char => match v {
            DynValue::Str(s) => {
                if s.as_str().unicode_len() == 1 {
                    Ok(Decoded::Char(s.as_str().get_char(0)))
                } else {
                    Err(DecodeError::InvalidLengthChar)
                }
            },
            _ => Err(DecodeError::TypeMismatch { expected: Category::Text, got: category_of(v) }),
        },
        Schema::Str => match v {
            DynValue::Str(s) => Ok(Decoded::Str(s.clone())),
            _ => Err(DecodeError::TypeMismatch { expected: Category::Text, got: category_of(v) }),
        },
        Schema::Bytes => match v {
            DynValue::Bytes(b) => Ok(Decoded::Bytes(copy_bytes(b))),
            _ => Err(DecodeError::TypeMismatch { expected: Category::Bytes, got: category_of(v) }),
        },
        Schema::Optional(inner) => match v {
            DynValue::Nil => Ok(Decoded::Absent),
            _ => match decode(v, inner) {
                Ok(d) => Ok(Decoded::Present(Box::new(d))),
                Err(e) => Err(e),
            },
        },
        Schema::Unit => match v {
            DynValue::Nil => Ok(Decoded::Unit),
            _ => Err(DecodeError::TypeMismatch { expected: Category::Null, got: category_of(v) }),
        },
        Schema::Sequence(inner) => match seq_items(v) {
            Some(items) => match decode_elems(items, inner) {
                Ok(ds) => Ok(Decoded::Sequence(ds)),
                Err(e) => Err(e),
            },
            None => Err(
                DecodeError::TypeMismatch { expected: Category::Sequence, got: category_of(v) },
            ),
        },
        Schema::Tuple(ss) => match seq_items(v) {
            Some(items) => {
                proof {
                    lemma_view_values(items@);
                    lemma_view_schemas(ss@);
                }
                if items.len() != ss.len() {
                    Err(DecodeError::IncorrectLength { expected: ss.len(), got: items.len() })
                } else {
                    match decode_tuple(items, ss) {
                        Ok(ds) => Ok(Decoded::Sequence(ds)),
                        Err(e) => Err(e),
                    }
                }
            },
            None => Err(
                DecodeError::TypeMismatch { expected: Category::Sequence, got: category_of(v) },
            ),
        },
        Schema::Mapping(ks, vs) => match v {
            DynValue::Dict(entries) => match decode_pairs(entries, ks, vs) {
                Ok(ds) => Ok(Decoded::Mapping(ds)),
                Err(e) => Err(e),
            },
            _ => Err(
                DecodeError::TypeMismatch { expected: Category::Mapping, got: category_of(v) },
            ),
        },
        Schema::Record(fields) => match v {
            DynValue::Dict(entries) => match decode_record(entries, fields) {
                Ok(fs) => Ok(Decoded::Record(fs)),
                Err(e) => Err(e),
            },
            _ => Err(
                DecodeError::TypeMismatch { expected: Category::Mapping, got: category_of(v) },
            ),
        },
        Schema::Union(variants) => match v {
            DynValue::Dict(entries) => {
                proof {
                    lemma_view_entries(entries@);
                }
                if entries.len() != 1 {
                    Err(DecodeError::InvalidUnionRepresentation)
                } else {
                    let e = &entries[0];
                    match &e.key {
                        DynValue::Str(tag) => match find_variant(variants, tag) {
                            Some(k) => {
                                proof {
                                    lemma_view_variants(variants@);
                                    lemma_val_size_entries_elem(view_entries(entries@), 0);
                                }
                                decode_variant(&e.value, &variants[k])
                            },
                            None => Err(DecodeError::UnknownVariant(tag.clone())),
                        },
                        _ => Err(DecodeError::NonTextKey),
                    }
                }
            },
            DynValue::Str(tag) => match find_variant(variants, tag) {
                Some(k) => {
                    proof {
                        lemma_view_variants(variants@);
                    }
                    match &variants[k].shape {
                        VariantShape::Unit => Ok(
                            Decoded::Variant(tag.clone(), VariantValue::Unit),
                        ),
                        VariantShape::Newtype(_) => Err(
                            DecodeError::InvalidUnionRepresentation,
                        ),
                        VariantShape::Tuple(_) => Err(DecodeError::InvalidUnionRepresentation),
                        VariantShape::Record(_) => Err(DecodeError::InvalidUnionRepresentation),
                    }
                },
                None => Err(DecodeError::UnknownVariant(tag.clone())),
            },
            _ => Err(DecodeError::InvalidUnionRepresentation),
        },
        Schema::Untagged(variants) => try_untagged(v, variants),
        Schema::Identifier => match v {
            DynValue::Str(s) => Ok(Decoded::Str(s.clone())),
            _ => Err(DecodeError::NonTextKey),
        },
        Schema::Ignored => Ok(Decoded::Unit),
    }
}

/// The fully-dynamic entry point: decode `v` as whatever shape is actually
/// present, as the classifier reports it.
pub fn decode_any(v: &DynValue) -> (r: Result<Decoded, DecodeError>)
    ensures
        view_result(r) == spec_decode_any(v.deep_view()),
    decreases val_size(v.deep_view()), 0nat,
{
    match v {
        DynValue::Nil => Ok(Decoded::Unit),
        DynValue::Bool(b) => Ok(Decoded::Bool(*b)),
        DynValue::Int(i) => narrow_int(i),
        DynValue::Float(bits) => Ok(Decoded::F64(*bits)),
        DynValue::Str(s) => Ok(Decoded::Str(s.clone())),
        DynValue::Bytes(b) => Ok(Decoded::Bytes(copy_bytes(b))),
        DynValue::List(items) => {
            let any = Schema::Any;
            match decode_elems(items, &any) {
                Ok(ds) => Ok(Decoded::Sequence(ds)),
                Err(e) => Err(e),
            }
        },
        DynValue::Tuple(items) => {
            let any = Schema::Any;
            match decode_elems(items, &any) {
                Ok(ds) => Ok(Decoded::Sequence(ds)),
                Err(e) => Err(e),
            }
        },
        DynValue::SetLike(items) => {
            let any = Schema::Any;
            match decode_elems(items, &any) {
                Ok(ds) => Ok(Decoded::Sequence(ds)),
                Err(e) => Err(e),
            }
        },
        DynValue::Dict(entries) => {
            let any_k = Schema::Any;
            let any_v = Schema::Any;
            match decode_pairs(entries, &any_k, &any_v) {
                Ok(ds) => Ok(Decoded::Mapping(ds)),
                Err(e) => Err(e),
            }
        },
        DynValue::Other(name) => Err(DecodeError::UnsupportedType(name.clone())),
    }
}

/// The sequence accessor's element walk: decode every element of an
/// open-ended sequence, front to back.
fn decode_elems(items: &Vec<DynValue>, elem: &Schema) -> (r: Result<Vec<Decoded>, DecodeError>)
    ensures
        ({
            let res = spec_decode_elems(view_values(items@), elem.deep_view());
            match r {
                Ok(ds) => res == Ok::<Seq<SpecDecoded>, SpecError>(view_decodeds(ds@)),
                Err(e) => res == Err::<Seq<SpecDecoded>, SpecError>(e.deep_view()),
            }
        }),
    decreases val_size_seq(view_values(items@)), schema_size(elem.deep_view()),
{
    let ghost iv = view_values(items@);
    proof {
        lemma_view_values(items@);
    }
    let mut out: Vec<Decoded> = Vec::new();
    let mut i: usize = 0;
    while i < items.len()
        invariant
            i <= items.len(),
            iv == view_values(items@),
            iv.len() == items@.len(),
            forall|k: int| 0 <= k < items@.len() ==> iv[k] == view_value(#[trigger] items@[k]),
            spec_decode_elems(iv.take(i as int), elem.deep_view()) == Ok::<
                Seq<SpecDecoded>,
                SpecError,
            >(view_decodeds(out@)),
        decreases items.len() - i,
    {
        proof {
            lemma_val_size_seq_elem(iv, i as int);
            assert(iv.take(i + 1).drop_last() =~= iv.take(i as int));
            assert(iv.take(i + 1).last() == iv[i as int]);
        }
        match decode(&items[i], elem) {
            Err(e) => {
                proof {
                    lemma_elems_err(iv, elem.deep_view(), i + 1);
                }
                return Err(e);
            },
            Ok(d) => {
                let ghost prev = out@;
                out.push(d);
                proof {
                    assert(out@.drop_last() =~= prev);
                }
            },
        }
        i += 1;
    }
    proof {
        assert(iv.take(items@.len() as int) =~= iv);
    }
    Ok(out)
}

/// The sequence accessor's element walk for a fixed-size tuple, whose arity
/// the caller has already checked.
fn decode_tuple(items: &Vec<DynValue>, ss: &Vec<Schema>) -> (r: Result<Vec<Decoded>, DecodeError>)
    requires
        items@.len() == ss@.len(),
    ensures
        ({
            let res = spec_decode_tuple(view_values(items@), view_schemas(ss@));
            match r {
                Ok(ds) => res == Ok::<Seq<SpecDecoded>, SpecError>(view_decodeds(ds@)),
                Err(e) => res == Err::<Seq<SpecDecoded>, SpecError>(e.deep_view()),
            }
        }),
    decreases val_size_seq(view_values(items@)), schema_size_seq(view_schemas(ss@)),
{
    let ghost iv = view_values(items@);
    let ghost sv = view_schemas(ss@);
    proof {
        lemma_view_values(items@);
        lemma_view_schemas(ss@);
    }
    let mut out: Vec<Decoded> = Vec::new();
    let mut i: usize = 0;
    while i < items.len()
        invariant
            i <= items.len(),
            items@.len() == ss@.len(),
            iv == view_values(items@),
            sv == view_schemas(ss@),
            iv.len() == items@.len(),
            sv.len() == ss@.len(),
            forall|k: int| 0 <= k < items@.len() ==> iv[k] == view_value(#[trigger] items@[k]),
            forall|k: int| 0 <= k < ss@.len() ==> sv[k] == crate::schema::view_schema(
                #[trigger] ss@[k],
            ),
            spec_decode_tuple(iv.take(i as int), sv.take(i as int)) == Ok::<
                Seq<SpecDecoded>,
                SpecError,
            >(view_decodeds(out@)),
        decreases items.len() - i,
    {
        proof {
            lemma_val_size_seq_elem(iv, i as int);
            lemma_schema_size_seq_elem(sv, i as int);
            assert(iv.take(i + 1).drop_last() =~= iv.take(i as int));
            assert(iv.take(i + 1).last() == iv[i as int]);
            assert(sv.take(i + 1).drop_last() =~= sv.take(i as int));
            assert(sv.take(i + 1).last() == sv[i as int]);
        }
        match decode(&items[i], &ss[i]) {
            Err(e) => {
                proof {
                    lemma_tuple_err(iv, sv, i + 1);
                }
                return Err(e);
            },
            Ok(d) => {
                let ghost prev = out@;
                out.push(d);
                proof {
                    assert(out@.drop_last() =~= prev);
                }
            },
        }
        i += 1;
    }
    proof {
        assert(iv.take(items@.len() as int) =~= iv);
        assert(sv.take(ss@.len() as int) =~= sv);
    }
    Ok(out)
}

/// The mapping accessor's walk for a homogeneous mapping: within one entry
/// the key first, then the value.
fn decode_pairs(entries: &Vec<DictEntry>, ks: &Schema, vs: &Schema) -> (r: Result<
    Vec<DecodedEntry>,
    DecodeError,
>)
    ensures
        ({
            let res = spec_decode_pairs(view_entries(entries@), ks.deep_view(), vs.deep_view());
            match r {
                Ok(ds) => res == Ok::<Seq<SpecDecodedEntry>, SpecError>(view_decoded_entries(ds@)),
                Err(e) => res == Err::<Seq<SpecDecodedEntry>, SpecError>(e.deep_view()),
            }
        }),
    decreases
            val_size_entries(view_entries(entries@)),
            1 + schema_size(ks.deep_view()) + schema_size(vs.deep_view()),
{
    let ghost ev = view_entries(entries@);
    proof {
        lemma_view_entries(entries@);
    }
    let mut out: Vec<DecodedEntry> = Vec::new();
    let mut i: usize = 0;
    while i < entries.len()
        invariant
            i <= entries.len(),
            ev == view_entries(entries@),
            ev.len() == entries@.len(),
            forall|k: int|
                0 <= k < entries@.len() ==> ev[k] == (#[trigger] entries@[k]).deep_view(),
            spec_decode_pairs(ev.take(i as int), ks.deep_view(), vs.deep_view()) == Ok::<
                Seq<SpecDecodedEntry>,
                SpecError,
            >(view_decoded_entries(out@)),
        decreases entries.len() - i,
    {
        proof {
            lemma_val_size_entries_elem(ev, i as int);
            assert(ev.take(i + 1).drop_last() =~= ev.take(i as int));
            assert(ev.take(i + 1).last() == ev[i as int]);
        }
        let e = &entries[i];
        match decode(&e.key, ks) {
            Err(er) => {
                proof {
                    lemma_pairs_err(ev, ks.deep_view(), vs.deep_view(), i + 1);
                }
                return Err(er);
            },
            Ok(dk) => match decode(&e.value, vs) {
                Err(er) => {
                    proof {
                        lemma_pairs_err(ev, ks.deep_view(), vs.deep_view(), i + 1);
                    }
                    return Err(er);
                },
                Ok(dv) => {
                    let ghost prev = out@;
                    out.push(DecodedEntry { key: dk, value: dv });
                    proof {
                        assert(out@.drop_last() =~= prev);
                    }
                },
            },
        }
        i += 1;
    }
    proof {
        assert(ev.take(entries@.len() as int) =~= ev);
    }
    Ok(out)
}

/// The mapping accessor's walk for a named-field record: fill one slot per
/// declared field, ignore undeclared keys, then require every slot filled.
fn decode_record(entries: &Vec<DictEntry>, fields: &Vec<FieldSchema>) -> (r: Result<
    Vec<DecodedField>,
    DecodeError,
>)
    ensures
        ({
            let res = spec_decode_record(view_entries(entries@), view_fields(fields@));
            match r {
                Ok(fs) => res == Ok::<Seq<SpecDecodedField>, SpecError>(view_decoded_fields(fs@)),
                Err(e) => res == Err::<Seq<SpecDecodedField>, SpecError>(e.deep_view()),
            }
        }),
    decreases val_size_entries(view_entries(entries@)) + 1, crate::sem::fields_size(
        view_fields(fields@),
    ),
{
    let ghost ev = view_entries(entries@);
    let ghost fv = view_fields(fields@);
    proof {
        lemma_view_entries(entries@);
        lemma_view_fields(fields@);
    }
    // One empty slot per declared field.
    let mut slots: Vec<Option<Decoded>> = Vec::new();
    let mut j: usize = 0;
    while j < fields.len()
        invariant
            j <= fields.len(),
            slots@.len() == j,
            forall|k: int| 0 <= k < j ==> (#[trigger] slots@[k]) is None,
        decreases fields.len() - j,
    {
        slots.push(None);
        j += 1;
    }
    proof {
        assert(ev.take(0) =~= Seq::<SpecEntry>::empty());
        assert(slots.deep_view() =~= Seq::new(fv.len(), |jj: int| Option::<SpecDecoded>::None));
    }
    // Walk the entries, filling slots.
    let mut i: usize = 0;
    while i < entries.len()
        invariant
            i <= entries.len(),
            ev == view_entries(entries@),
            fv == view_fields(fields@),
            ev.len() == entries@.len(),
            forall|k: int|
                0 <= k < entries@.len() ==> ev[k] == (#[trigger] entries@[k]).deep_view(),
            fv.len() == fields@.len(),
            forall|k: int| 0 <= k < fields@.len() ==> fv[k] == (#[trigger] fields@[k]).deep_view(),
            slots@.len() == fields@.len(),
            spec_record_slots(ev.take(i as int), fv) == Ok::<
                Seq<Option<SpecDecoded>>,
                SpecError,
            >(slots.deep_view()),
        decreases entries.len() - i,
    {
        proof {
            lemma_val_size_entries_elem(ev, i as int);
            assert(ev.take(i + 1).drop_last() =~= ev.take(i as int));
            assert(ev.take(i + 1).last() == ev[i as int]);
        }
        let e = &entries[i];
        match &e.key {
            DynValue::Str(name) => match find_field(fields, name) {
                Some(j) => {
                    if slots[j].is_some() {
                        proof {
                            lemma_slots_err(ev, fv, i + 1);
                        }
                        return Err(DecodeError::DuplicateField(name.clone()));
                    } else {
                        match decode(&e.value, &fields[j].schema) {
                            Err(er) => {
                                proof {
                                    lemma_slots_err(ev, fv, i + 1);
                                }
                                return Err(er);
                            },
                            Ok(d) => {
                                let ghost prev = slots.deep_view();
                                slots[j] = Some(d);
                                proof {
                                    assert(slots.deep_view() =~= prev.update(
                                        j as int,
                                        Some(view_decoded(d)),
                                    ));
                                }
                            },
                        }
                    }
                },
                None => {
                    // An undeclared field: its value is never inspected.
                },
            },
            _ => {
                proof {
                    lemma_slots_err(ev, fv, i + 1);
                }
                return Err(DecodeError::NonTextKey);
            },
        }
        i += 1;
    }
    proof {
        assert(ev.take(entries@.len() as int) =~= ev);
    }
    // Require every declared field present, in declaration order, and
    // assemble the record.
    let ghost full = slots.deep_view();
    proof {
        lemma_first_none(full);
    }
    let mut out: Vec<DecodedField> = Vec::new();
    let mut j2: usize = 0;
    while j2 < fields.len()
        invariant
            j2 <= fields.len(),
            ev == view_entries(entries@),
            fv == view_fields(fields@),
            spec_record_slots(ev, fv) == Ok::<Seq<Option<SpecDecoded>>, SpecError>(full),
            fv.len() == fields@.len(),
            forall|k: int| 0 <= k < fields@.len() ==> fv[k] == (#[trigger] fields@[k]).deep_view(),
            full.len() == fields@.len(),
            slots@.len() == fields@.len() - j2,
            slots.deep_view() == full.skip(j2 as int),
            forall|k: int| 0 <= k < j2 ==> (#[trigger] full[k]) is Some,
            view_decoded_fields(out@) == Seq::new(
                j2 as nat,
                |k: int| SpecDecodedField { name: fv[k].name, value: full[k]->0 },
            ),
        decreases fields.len() - j2,
    {
        let ghost prev_slots = slots.deep_view();
        let s = slots.remove(0);
        proof {
            assert(slots.deep_view() =~= prev_slots.drop_first());
            assert(prev_slots.drop_first() =~= full.skip(j2 + 1));
            assert(prev_slots[0] == full[j2 as int]);
        }
        match s {
            None => {
                proof {
                    lemma_first_none(full);
                }
                return Err(DecodeError::MissingField(fields[j2].name.clone()));
            },
            Some(d) => {
                let ghost prev = out@;
                out.push(DecodedField { name: fields[j2].name.clone(), value: d });
                proof {
                    assert(out@.drop_last() =~= prev);
                    assert(view_decoded_fields(out@) =~= Seq::new(
                        (j2 + 1) as nat,
                        |k: int| SpecDecodedField { name: fv[k].name, value: full[k]->0 },
                    ));
                }
            },
        }
        j2 += 1;
    }
    proof {
        lemma_first_none(full);
        assert(view_decoded_fields(out@) =~= Seq::new(
            fv.len(),
            |k: int| SpecDecodedField { name: fv[k].name, value: full[k]->0 },
        ));
    }
    Ok(out)
}

/// Decode one declared union variant from its payload value.
fn decode_variant(payload: &DynValue, var: &VariantSchema) -> (r: Result<Decoded, DecodeError>)
    ensures
        view_result(r) == spec_decode_variant(payload.deep_view(), var.deep_view()),
    decreases val_size(payload.deep_view()), shape_size(var.deep_view().shape),
{
    proof {
        reveal_with_fuel(view_decoded, 3);
    }
    match &var.shape {
        VariantShape::Unit => Ok(Decoded::Variant(var.name.clone(), VariantValue::Unit)),
        VariantShape::Newtype(inner) => match decode(payload, inner) {
            Ok(d) => Ok(
                Decoded::Variant(var.name.clone(), VariantValue::Newtype(Box::new(d))),
            ),
            Err(e) => Err(e),
        },
        VariantShape::Tuple(ss) => match seq_items(payload) {
            Some(items) => {
                proof {
                    lemma_view_values(items@);
                    lemma_view_schemas(ss@);
                }
                if items.len() != ss.len() {
                    Err(DecodeError::IncorrectLength { expected: ss.len(), got: items.len() })
                } else {
                    match decode_tuple(items, ss) {
                        Ok(ds) => Ok(
                            Decoded::Variant(var.name.clone(), VariantValue::Tuple(ds)),
                        ),
                        Err(e) => Err(e),
                    }
                }
            },
            None => Err(
                DecodeError::TypeMismatch {
                    expected: Category::Sequence,
                    got: category_of(payload),
                },
            ),
        },
        VariantShape::Record(fields) => match payload {
            DynValue::Dict(entries) => match decode_record(entries, fields) {
                Ok(fs) => Ok(
                    Decoded::Variant(var.name.clone(), VariantValue::Record(fs)),
                ),
                Err(e) => Err(e),
            },
            _ => Err(
                DecodeError::TypeMismatch {
                    expected: Category::Mapping,
                    got: category_of(payload),
                },
            ),
        },
    }
}

/// Match one untagged variant structurally against the value itself.
fn match_untagged(v: &DynValue, var: &VariantSchema) -> (r: Result<Decoded, DecodeError>)
    ensures
        view_result(r) == spec_match_untagged(v.deep_view(), var.deep_view()),
    decreases val_size(v.deep_view()), shape_size(var.deep_view().shape) + 1,
{
    match &var.shape {
        VariantShape::Unit => match v {
            DynValue::Nil => {
                proof {
                    reveal_with_fuel(view_decoded, 2);
                }
                Ok(Decoded::Variant(var.name.clone(), VariantValue::Unit))
            },
            _ => Err(DecodeError::TypeMismatch { expected: Category::Null, got: category_of(v) }),
        },
        VariantShape::Newtype(_) => decode_variant(v, var),
        VariantShape::Tuple(_) => decode_variant(v, var),
        VariantShape::Record(_) => decode_variant(v, var),
    }
}

/// Resolve the union tag of `v`: a single-entry mapping hands out its sole
/// text key as the tag and its value as the payload; bare text is a tag with
/// no payload; anything else is an invalid union representation.
pub fn union_form<'a>(v: &'a DynValue) -> (r: Result<(String, Option<&'a DynValue>), DecodeError>)
    ensures
        ({
            let res = crate::sem::spec_union_form(v.deep_view());
            match r {
                Ok((tag, payload)) => res == Ok::<(Seq<char>, Option<crate::value::SpecValue>), SpecError>(
                    (tag@, payload.deep_view()),
                ),
                Err(e) => res == Err::<(Seq<char>, Option<crate::value::SpecValue>), SpecError>(
                    e.deep_view(),
                ),
            }
        }),
{
    match v {
        DynValue::Dict(entries) => {
            proof {
                lemma_view_entries(entries@);
            }
            if entries.len() != 1 {
                Err(DecodeError::InvalidUnionRepresentation)
            } else {
                let e = &entries[0];
                match &e.key {
                    DynValue::Str(tag) => Ok((tag.clone(), Some(&e.value))),
                    _ => Err(DecodeError::NonTextKey),
                }
            }
        },
        DynValue::Str(tag) => Ok((tag.clone(), None)),
        _ => Err(DecodeError::InvalidUnionRepresentation),
    }
}

/// Try each variant of an untagged union in declaration order, committing to
/// the first structural match.
fn try_untagged(v: &DynValue, variants: &Vec<VariantSchema>) -> (r: Result<Decoded, DecodeError>)
    ensures
        view_result(r) == spec_try_untagged(v.deep_view(), view_variants(variants@)),
    decreases val_size(v.deep_view()), crate::sem::variants_size(view_variants(variants@)),
{
    let ghost vv = view_variants(variants@);
    proof {
        lemma_view_variants(variants@);
        assert(vv.skip(0) =~= vv);
    }
    let mut k: usize = 0;
    while k < variants.len()
        invariant
            k <= variants.len(),
            vv == view_variants(variants@),
            vv.len() == variants@.len(),
            forall|j: int|
                0 <= j < variants@.len() ==> vv[j] == (#[trigger] variants@[j]).deep_view(),
            spec_try_untagged(v.deep_view(), vv.skip(k as int)) == spec_try_untagged(
                v.deep_view(),
                vv,
            ),
        decreases variants.len() - k,
    {
        proof {
            lemma_variants_size_elem(vv, k as int);
            assert(vv.skip(k as int)[0] == vv[k as int]);
            assert(vv.skip(k as int).drop_first() =~= vv.skip(k + 1));
        }
        match match_untagged(v, &variants[k]) {
            Ok(d) => {
                return Ok(d);
            },
            Err(_) => {},
        }
        k += 1;
    }
    proof {
        assert(vv.skip(variants@.len() as int) =~= Seq::<SpecVariant>::empty());
    }
    Err(DecodeError::UntaggedMismatch)
}

} // verus!
