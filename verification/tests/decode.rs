//! Tests for the deserialization engine: the dynamic values mirror the
//! runtime objects the engine is fed in practice, the schemas mirror the
//! target types that drive it.

use pythonize::classify::{category_of, classify};
use pythonize::de::{decode, decode_any};
use pythonize::decoded::{Decoded, DecodedEntry, DecodedField, VariantValue};
use pythonize::error::{Category, DecodeError};
use pythonize::schema::{FieldSchema, Schema, VariantSchema, VariantShape};
use pythonize::value::{DictEntry, DynInt, DynValue};

fn num(x: i128) -> DynValue {
    if x < 0 {
        DynValue::Int(DynInt { negative: true, magnitude: x.unsigned_abs() })
    } else {
        DynValue::Int(DynInt { negative: false, magnitude: x as u128 })
    }
}

fn unum(x: u128) -> DynValue {
    DynValue::Int(DynInt { negative: false, magnitude: x })
}

fn text(t: &str) -> DynValue {
    DynValue::Str(t.to_string())
}

fn float(x: f64) -> DynValue {
    DynValue::Float(x.to_bits())
}

fn entry(k: DynValue, v: DynValue) -> DictEntry {
    DictEntry { key: k, value: v }
}

fn field(name: &str, schema: Schema) -> FieldSchema {
    FieldSchema { name: name.to_string(), schema }
}

fn variant(name: &str, shape: VariantShape) -> VariantSchema {
    VariantSchema { name: name.to_string(), shape }
}

fn dfield(name: &str, value: Decoded) -> DecodedField {
    DecodedField { name: name.to_string(), value }
}

fn dentry(key: Decoded, value: Decoded) -> DecodedEntry {
    DecodedEntry { key, value }
}

fn dstr(t: &str) -> Decoded {
    Decoded::Str(t.to_string())
}

#[test]
fn test_empty_struct() {
    // A unit struct is requested from the absence sentinel.
    assert_eq!(decode(&DynValue::Nil, &Schema::Unit), Ok(Decoded::Unit));
    // The fully-dynamic target sees the same value as null/unit.
    assert_eq!(decode_any(&DynValue::Nil), Ok(Decoded::Unit));
}

#[test]
fn test_struct() {
    let obj = DynValue::Dict(vec![
        entry(text("foo"), text("Foo")),
        entry(text("bar"), num(8)),
        entry(text("baz"), float(45.23)),
        entry(text("qux"), DynValue::Bool(true)),
    ]);
    let schema = Schema::Record(vec![
        field("foo", Schema::Str),
        field("bar", Schema::U64),
        field("baz", Schema::F32),
        field("qux", Schema::Bool),
    ]);
    assert_eq!(
        decode(&obj, &schema),
        Ok(Decoded::Record(vec![
            dfield("foo", dstr("Foo")),
            dfield("bar", Decoded::U64(8)),
            dfield("baz", Decoded::F32(45.23f64.to_bits())),
            dfield("qux", Decoded::Bool(true)),
        ]))
    );
    assert_eq!(
        decode_any(&obj),
        Ok(Decoded::Mapping(vec![
            dentry(dstr("foo"), dstr("Foo")),
            dentry(dstr("bar"), Decoded::U8(8)),
            dentry(dstr("baz"), Decoded::F64(45.23f64.to_bits())),
            dentry(dstr("qux"), Decoded::Bool(true)),
        ]))
    );
}

#[test]
fn test_struct_missing_key() {
    let obj = DynValue::Dict(vec![entry(text("foo"), text("Foo"))]);
    let schema = Schema::Record(vec![field("foo", Schema::Str), field("bar", Schema::U64)]);
    assert_eq!(
        decode(&obj, &schema),
        Err(DecodeError::MissingField("bar".to_string()))
    );
}

#[test]
fn test_tuple_struct() {
    let obj = DynValue::Tuple(vec![text("cat"), float(-10.05)]);
    let schema = Schema::Tuple(vec![Schema::Str, Schema::F64]);
    assert_eq!(
        decode(&obj, &schema),
        Ok(Decoded::Sequence(vec![
            dstr("cat"),
            Decoded::F64((-10.05f64).to_bits()),
        ]))
    );
}

#[test]
fn test_tuple_too_long() {
    let obj = DynValue::Tuple(vec![text("cat"), float(-10.05), text("foo")]);
    let schema = Schema::Tuple(vec![Schema::Str, Schema::F64]);
    assert_eq!(
        decode(&obj, &schema),
        Err(DecodeError::IncorrectLength { expected: 2, got: 3 })
    );
}

#[test]
fn test_tuple_struct_from_pylist() {
    let obj = DynValue::List(vec![text("cat"), float(-10.05)]);
    let schema = Schema::Tuple(vec![Schema::Str, Schema::F64]);
    assert_eq!(
        decode(&obj, &schema),
        Ok(Decoded::Sequence(vec![
            dstr("cat"),
            Decoded::F64((-10.05f64).to_bits()),
        ]))
    );
}

#[test]
fn test_tuple() {
    let obj = DynValue::Tuple(vec![text("foo"), num(5)]);
    let schema = Schema::Tuple(vec![Schema::Str, Schema::I32]);
    assert_eq!(
        decode(&obj, &schema),
        Ok(Decoded::Sequence(vec![dstr("foo"), Decoded::I32(5)]))
    );
}

#[test]
fn test_tuple_from_pylist() {
    let obj = DynValue::List(vec![text("foo"), num(5)]);
    let schema = Schema::Tuple(vec![Schema::Str, Schema::I32]);
    assert_eq!(
        decode(&obj, &schema),
        Ok(Decoded::Sequence(vec![dstr("foo"), Decoded::I32(5)]))
    );
}

#[test]
fn test_vec() {
    let obj = DynValue::List(vec![num(3), num(2), num(1)]);
    let schema = Schema::Sequence(Box::new(Schema::I32));
    assert_eq!(
        decode(&obj, &schema),
        Ok(Decoded::Sequence(vec![
            Decoded::I32(3),
            Decoded::I32(2),
            Decoded::I32(1),
        ]))
    );
}

#[test]
fn test_vec_from_tuple() {
    let obj = DynValue::Tuple(vec![num(3), num(2), num(1)]);
    let schema = Schema::Sequence(Box::new(Schema::I32));
    assert_eq!(
        decode(&obj, &schema),
        Ok(Decoded::Sequence(vec![
            Decoded::I32(3),
            Decoded::I32(2),
            Decoded::I32(1),
        ]))
    );
}

#[test]
fn test_hashmap() {
    let obj = DynValue::Dict(vec![entry(text("foo"), num(4))]);
    let schema = Schema::Mapping(Box::new(Schema::Str), Box::new(Schema::I32));
    assert_eq!(
        decode(&obj, &schema),
        Ok(Decoded::Mapping(vec![dentry(dstr("foo"), Decoded::I32(4))]))
    );
}

#[test]
fn test_enum_variant() {
    let obj = text("Variant");
    let schema = Schema::Union(vec![variant("Variant", VariantShape::Unit)]);
    assert_eq!(
        decode(&obj, &schema),
        Ok(Decoded::Variant("Variant".to_string(), VariantValue::Unit))
    );
}

#[test]
fn test_enum_tuple_variant() {
    let obj = DynValue::Dict(vec![entry(
        text("Tuple"),
        DynValue::List(vec![num(12), text("cat")]),
    )]);
    let schema = Schema::Union(vec![variant(
        "Tuple",
        VariantShape::Tuple(vec![Schema::I32, Schema::Str]),
    )]);
    assert_eq!(
        decode(&obj, &schema),
        Ok(Decoded::Variant(
            "Tuple".to_string(),
            VariantValue::Tuple(vec![Decoded::I32(12), dstr("cat")]),
        ))
    );
}

#[test]
fn test_enum_newtype_variant() {
    let obj = DynValue::Dict(vec![entry(text("NewType"), text("cat"))]);
    let schema = Schema::Union(vec![variant(
        "NewType",
        VariantShape::Newtype(Box::new(Schema::Str)),
    )]);
    assert_eq!(
        decode(&obj, &schema),
        Ok(Decoded::Variant(
            "NewType".to_string(),
            VariantValue::Newtype(Box::new(dstr("cat"))),
        ))
    );
}

#[test]
fn test_enum_struct_variant() {
    let obj = DynValue::Dict(vec![entry(
        text("Struct"),
        DynValue::Dict(vec![entry(text("foo"), text("cat")), entry(text("bar"), num(25))]),
    )]);
    let schema = Schema::Union(vec![variant(
        "Struct",
        VariantShape::Record(vec![field("foo", Schema::Str), field("bar", Schema::U64)]),
    )]);
    assert_eq!(
        decode(&obj, &schema),
        Ok(Decoded::Variant(
            "Struct".to_string(),
            VariantValue::Record(vec![
                dfield("foo", dstr("cat")),
                dfield("bar", Decoded::U64(25)),
            ]),
        ))
    );
}

#[test]
fn test_enum_untagged_tuple_variant() {
    let obj = DynValue::List(vec![float(12.0), text("c")]);
    let schema = Schema::Untagged(vec![variant(
        "Tuple",
        VariantShape::Tuple(vec![Schema::F32, Schema::Char]),
    )]);
    assert_eq!(
        decode(&obj, &schema),
        Ok(Decoded::Variant(
            "Tuple".to_string(),
            VariantValue::Tuple(vec![
                Decoded::F32(12.0f64.to_bits()),
                Decoded::Char('c'),
            ]),
        ))
    );
}

#[test]
fn test_enum_untagged_newtype_variant() {
    let obj = text("cat");
    let schema = Schema::Untagged(vec![variant(
        "NewType",
        VariantShape::Newtype(Box::new(Schema::Str)),
    )]);
    assert_eq!(
        decode(&obj, &schema),
        Ok(Decoded::Variant(
            "NewType".to_string(),
            VariantValue::Newtype(Box::new(dstr("cat"))),
        ))
    );
}

#[test]
fn test_enum_untagged_struct_variant() {
    let obj = DynValue::Dict(vec![
        entry(text("foo"), DynValue::List(vec![text("a"), text("b"), text("c")])),
        entry(
            text("bar"),
            DynValue::List(vec![num(2), num(5), num(3), num(1)]),
        ),
    ]);
    let schema = Schema::Untagged(vec![variant(
        "Struct",
        VariantShape::Record(vec![
            field("foo", Schema::Sequence(Box::new(Schema::Char))),
            field(
                "bar",
                Schema::Tuple(vec![Schema::U8, Schema::U8, Schema::U8, Schema::U8]),
            ),
        ]),
    )]);
    assert_eq!(
        decode(&obj, &schema),
        Ok(Decoded::Variant(
            "Struct".to_string(),
            VariantValue::Record(vec![
                dfield(
                    "foo",
                    Decoded::Sequence(vec![
                        Decoded::Char('a'),
                        Decoded::Char('b'),
                        Decoded::Char('c'),
                    ]),
                ),
                dfield(
                    "bar",
                    Decoded::Sequence(vec![
                        Decoded::U8(2),
                        Decoded::U8(5),
                        Decoded::U8(3),
                        Decoded::U8(1),
                    ]),
                ),
            ]),
        ))
    );
}

#[test]
fn test_nested_type() {
    let obj = DynValue::Dict(vec![
        entry(text("name"), text("SomeFoo")),
        entry(
            text("bar"),
            DynValue::Dict(vec![
                entry(text("value"), num(13)),
                entry(
                    text("variant"),
                    DynValue::Dict(vec![entry(
                        text("Tuple"),
                        DynValue::List(vec![float(-1.5), num(8)]),
                    )]),
                ),
            ]),
        ),
    ]);
    let schema = Schema::Record(vec![
        field("name", Schema::Str),
        field(
            "bar",
            Schema::Record(vec![
                field("value", Schema::U64),
                field(
                    "variant",
                    Schema::Union(vec![
                        variant("Basic", VariantShape::Unit),
                        variant("Tuple", VariantShape::Tuple(vec![Schema::F32, Schema::U32])),
                    ]),
                ),
            ]),
        ),
    ]);
    assert_eq!(
        decode(&obj, &schema),
        Ok(Decoded::Record(vec![
            dfield("name", dstr("SomeFoo")),
            dfield(
                "bar",
                Decoded::Record(vec![
                    dfield("value", Decoded::U64(13)),
                    dfield(
                        "variant",
                        Decoded::Variant(
                            "Tuple".to_string(),
                            VariantValue::Tuple(vec![
                                Decoded::F32((-1.5f64).to_bits()),
                                Decoded::U32(8),
                            ]),
                        ),
                    ),
                ]),
            ),
        ]))
    );
}

#[test]
fn test_int_limits() {
    // The fully-dynamic target narrows every fixed-width limit losslessly.
    assert_eq!(decode_any(&unum(u8::MAX as u128)), Ok(Decoded::U8(u8::MAX)));
    assert_eq!(decode_any(&unum(u8::MIN as u128)), Ok(Decoded::U8(u8::MIN)));
    assert_eq!(decode_any(&num(i8::MAX as i128)), Ok(Decoded::U8(i8::MAX as u8)));
    assert_eq!(decode_any(&num(i8::MIN as i128)), Ok(Decoded::I8(i8::MIN)));

    assert_eq!(decode_any(&unum(u16::MAX as u128)), Ok(Decoded::U16(u16::MAX)));
    assert_eq!(decode_any(&num(i16::MIN as i128)), Ok(Decoded::I16(i16::MIN)));

    assert_eq!(decode_any(&unum(u32::MAX as u128)), Ok(Decoded::U32(u32::MAX)));
    assert_eq!(decode_any(&num(i32::MIN as i128)), Ok(Decoded::I32(i32::MIN)));

    assert_eq!(decode_any(&unum(u64::MAX as u128)), Ok(Decoded::U64(u64::MAX)));
    assert_eq!(decode_any(&num(i64::MIN as i128)), Ok(Decoded::I64(i64::MIN)));

    assert_eq!(decode_any(&unum(u128::MAX)), Ok(Decoded::U128(u128::MAX)));
    assert_eq!(
        decode(&unum(u128::MAX), &Schema::U128),
        Ok(Decoded::U128(u128::MAX))
    );
    assert_eq!(decode(&unum(u128::MIN), &Schema::I128), Ok(Decoded::I128(0)));
    assert_eq!(
        decode(&num(i128::MAX), &Schema::I128),
        Ok(Decoded::I128(i128::MAX))
    );
    assert_eq!(
        decode(&num(i128::MIN), &Schema::I128),
        Ok(Decoded::I128(i128::MIN))
    );
    assert_eq!(decode_any(&num(i128::MIN)), Ok(Decoded::I128(i128::MIN)));
}

#[test]
fn narrowing_picks_smallest_width() {
    assert_eq!(decode_any(&unum(200)), Ok(Decoded::U8(200)));
    assert_eq!(decode_any(&unum(1000)), Ok(Decoded::U16(1000)));
    assert_eq!(decode_any(&num(-1000)), Ok(Decoded::I16(-1000)));
    assert_eq!(decode_any(&unum(0)), Ok(Decoded::U8(0)));
    assert_eq!(decode_any(&num(-1)), Ok(Decoded::I8(-1)));
}

#[test]
fn classifier_priority_bool_before_int() {
    assert_eq!(classify(&DynValue::Bool(true)), Ok(Category::Boolean));
    assert_eq!(decode_any(&DynValue::Bool(true)), Ok(Decoded::Bool(true)));
    assert_eq!(category_of(&num(1)), Category::Integer);
    assert_eq!(
        classify(&DynValue::Other("complex".to_string())),
        Err(DecodeError::UnsupportedType("complex".to_string()))
    );
}

#[test]
fn any_decodes_set_as_sequence() {
    let obj = DynValue::SetLike(vec![num(1), num(2)]);
    assert_eq!(
        decode_any(&obj),
        Ok(Decoded::Sequence(vec![Decoded::U8(1), Decoded::U8(2)]))
    );
}

#[test]
fn any_rejects_unsupported_type() {
    let obj = DynValue::Other("module".to_string());
    assert_eq!(
        decode_any(&obj),
        Err(DecodeError::UnsupportedType("module".to_string()))
    );
}

#[test]
fn bool_uses_truthiness() {
    assert_eq!(decode(&num(0), &Schema::Bool), Ok(Decoded::Bool(false)));
    assert_eq!(decode(&num(7), &Schema::Bool), Ok(Decoded::Bool(true)));
    assert_eq!(decode(&text(""), &Schema::Bool), Ok(Decoded::Bool(false)));
    assert_eq!(decode(&DynValue::Nil, &Schema::Bool), Ok(Decoded::Bool(false)));
    assert_eq!(
        decode(&DynValue::List(vec![]), &Schema::Bool),
        Ok(Decoded::Bool(false))
    );
    assert_eq!(
        decode(&DynValue::Float((-0.0f64).to_bits()), &Schema::Bool),
        Ok(Decoded::Bool(false))
    );
    assert_eq!(
        decode(&DynValue::Float(0.5f64.to_bits()), &Schema::Bool),
        Ok(Decoded::Bool(true))
    );
}

#[test]
fn char_requires_one_code_point() {
    assert_eq!(decode(&text("c"), &Schema::Char), Ok(Decoded::Char('c')));
    assert_eq!(decode(&text("ab"), &Schema::Char), Err(DecodeError::InvalidLengthChar));
    assert_eq!(decode(&text(""), &Schema::Char), Err(DecodeError::InvalidLengthChar));
    assert_eq!(
        decode(&num(1), &Schema::Char),
        Err(DecodeError::TypeMismatch { expected: Category::Text, got: Category::Integer })
    );
}

#[test]
fn optional_takes_absence_or_inner() {
    let schema = Schema::Optional(Box::new(Schema::Str));
    assert_eq!(decode(&DynValue::Nil, &schema), Ok(Decoded::Absent));
    assert_eq!(
        decode(&text("x"), &schema),
        Ok(Decoded::Present(Box::new(dstr("x"))))
    );
}

#[test]
fn fixed_width_rejects_out_of_range() {
    assert_eq!(decode(&unum(300), &Schema::U8), Err(DecodeError::IntOutOfRange));
    assert_eq!(decode(&num(-1), &Schema::U64), Err(DecodeError::IntOutOfRange));
    assert_eq!(decode(&num(128), &Schema::I8), Err(DecodeError::IntOutOfRange));
    assert_eq!(decode(&num(-128), &Schema::I8), Ok(Decoded::I8(-128)));
    assert_eq!(
        decode(&text("5"), &Schema::I8),
        Err(DecodeError::TypeMismatch { expected: Category::Integer, got: Category::Text })
    );
}

#[test]
fn record_ignores_extra_fields() {
    let obj = DynValue::Dict(vec![
        entry(text("foo"), text("Foo")),
        entry(text("bar"), num(8)),
        entry(text("baz"), DynValue::Other("object".to_string())),
    ]);
    let schema = Schema::Record(vec![field("foo", Schema::Str), field("bar", Schema::U64)]);
    assert_eq!(
        decode(&obj, &schema),
        Ok(Decoded::Record(vec![
            dfield("foo", dstr("Foo")),
            dfield("bar", Decoded::U64(8)),
        ]))
    );
}

#[test]
fn record_rejects_duplicate_field() {
    let obj = DynValue::Dict(vec![
        entry(text("foo"), text("a")),
        entry(text("foo"), text("b")),
    ]);
    let schema = Schema::Record(vec![field("foo", Schema::Str)]);
    assert_eq!(
        decode(&obj, &schema),
        Err(DecodeError::DuplicateField("foo".to_string()))
    );
}

#[test]
fn record_rejects_non_text_key() {
    let obj = DynValue::Dict(vec![entry(num(1), text("a"))]);
    let schema = Schema::Record(vec![field("foo", Schema::Str)]);
    assert_eq!(decode(&obj, &schema), Err(DecodeError::NonTextKey));
}

#[test]
fn union_rejects_two_entries() {
    let obj = DynValue::Dict(vec![
        entry(text("Tuple"), DynValue::List(vec![num(1), num(2)])),
        entry(text("Extra"), num(3)),
    ]);
    let schema = Schema::Union(vec![variant(
        "Tuple",
        VariantShape::Tuple(vec![Schema::I32, Schema::I32]),
    )]);
    assert_eq!(
        decode(&obj, &schema),
        Err(DecodeError::InvalidUnionRepresentation)
    );
}

#[test]
fn union_rejects_unknown_variant() {
    let schema = Schema::Union(vec![variant("Variant", VariantShape::Unit)]);
    assert_eq!(
        decode(&text("Nope"), &schema),
        Err(DecodeError::UnknownVariant("Nope".to_string()))
    );
}

#[test]
fn union_bare_text_needs_unit_variant() {
    let schema = Schema::Union(vec![variant(
        "Tuple",
        VariantShape::Tuple(vec![Schema::I32, Schema::I32]),
    )]);
    assert_eq!(
        decode(&text("Tuple"), &schema),
        Err(DecodeError::InvalidUnionRepresentation)
    );
    assert_eq!(
        decode(&num(3), &schema),
        Err(DecodeError::InvalidUnionRepresentation)
    );
}

#[test]
fn union_rejects_non_text_tag() {
    let obj = DynValue::Dict(vec![entry(num(1), num(2))]);
    let schema = Schema::Union(vec![variant("Variant", VariantShape::Unit)]);
    assert_eq!(decode(&obj, &schema), Err(DecodeError::NonTextKey));
}

#[test]
fn untagged_takes_first_structural_match() {
    let schema = Schema::Untagged(vec![
        variant("Tuple", VariantShape::Tuple(vec![Schema::F32, Schema::Char])),
        variant("NewType", VariantShape::Newtype(Box::new(Schema::Str))),
    ]);
    let obj = DynValue::List(vec![float(12.0), text("c")]);
    assert_eq!(
        decode(&obj, &schema),
        Ok(Decoded::Variant(
            "Tuple".to_string(),
            VariantValue::Tuple(vec![
                Decoded::F32(12.0f64.to_bits()),
                Decoded::Char('c'),
            ]),
        ))
    );
    // The second variant is reached only after the first fails structurally.
    assert_eq!(
        decode(&text("cat"), &schema),
        Ok(Decoded::Variant(
            "NewType".to_string(),
            VariantValue::Newtype(Box::new(dstr("cat"))),
        ))
    );
    assert_eq!(
        decode(&num(3), &schema),
        Err(DecodeError::UntaggedMismatch)
    );
}

#[test]
fn identifier_requires_text() {
    assert_eq!(decode(&text("abc"), &Schema::Identifier), Ok(dstr("abc")));
    assert_eq!(decode(&num(1), &Schema::Identifier), Err(DecodeError::NonTextKey));
}

#[test]
fn ignored_always_succeeds() {
    assert_eq!(
        decode(&DynValue::Other("object".to_string()), &Schema::Ignored),
        Ok(Decoded::Unit)
    );
    assert_eq!(decode(&num(3), &Schema::Ignored), Ok(Decoded::Unit));
}

#[test]
fn bytes_round_through() {
    let obj = DynValue::Bytes(vec![1, 2, 3]);
    assert_eq!(decode(&obj, &Schema::Bytes), Ok(Decoded::Bytes(vec![1, 2, 3])));
    assert_eq!(decode_any(&obj), Ok(Decoded::Bytes(vec![1, 2, 3])));
    assert_eq!(
        decode(&text("x"), &Schema::Bytes),
        Err(DecodeError::TypeMismatch { expected: Category::Bytes, got: Category::Text })
    );
}

#[test]
fn dynamic_entry_is_idempotent() {
    let obj = DynValue::Dict(vec![
        entry(text("name"), text("SomeFoo")),
        entry(
            text("bar"),
            DynValue::Dict(vec![
                entry(text("value"), num(13)),
                entry(
                    text("variant"),
                    DynValue::Dict(vec![entry(
                        text("Tuple"),
                        DynValue::List(vec![float(-1.5), num(8)]),
                    )]),
                ),
            ]),
        ),
    ]);
    let first = decode_any(&obj);
    let second = decode_any(&obj);
    assert!(first.is_ok());
    assert_eq!(first, second);
}

#[test]
fn list_and_tuple_sources_agree() {
    let list = DynValue::List(vec![num(1), text("x")]);
    let tuple = DynValue::Tuple(vec![num(1), text("x")]);
    let schema = Schema::Tuple(vec![Schema::U8, Schema::Str]);
    assert_eq!(decode(&list, &schema), decode(&tuple, &schema));
    assert_eq!(decode_any(&list), decode_any(&tuple));
}
