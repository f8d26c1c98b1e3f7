//! Decoded target values: the fully formed result of one conversion.
//!
//! A decoded integer records the width the narrowing ladder (or the schema)
//! chose for it.  Floats carry the 64-bit IEEE 754 bit pattern of the source
//! value; the `F32` variant records that 32-bit storage was requested, the
//! bit-level narrowing itself being a float operation of the embedder, not of
//! this engine.

use vstd::prelude::*;

verus! {

/// A fully formed target value.
#[derive(Debug, PartialEq)]
pub enum Decoded {
    /// The unit value.
    Unit,
    Bool(bool),
    I8(i8),
    I16(i16),
    I32(i32),
    I64(i64),
    I128(i128),
    U8(u8),
    U16(u16),
    U32(u32),
    U64(u64),
    U128(u128),
    /// A float requested at 32-bit width; the payload is still the source's
    /// 64-bit IEEE 754 bit pattern.
    F32(u64),
    /// A float at 64-bit width, as its IEEE 754 bit pattern.
    F64(u64),
    Char(char),
    Str(String),
    Bytes(Vec<u8>),
    /// An optional that was absent.
    Absent,
    /// An optional that was present.
    Present(Box<Decoded>),
    /// A sequence or tuple, in source order.
    Sequence(Vec<Decoded>),
    /// A mapping, as its entries in source order.
    Mapping(Vec<DecodedEntry>),
    /// A record, as its fields in schema declaration order.
    Record(Vec<DecodedField>),
    /// A union variant: the tag and the decoded payload.
    Variant(String, VariantValue),
}

/// One decoded key/value entry of a mapping.
#[derive(Debug, PartialEq)]
pub struct DecodedEntry {
    pub key: Decoded,
    pub value: Decoded,
}

/// One decoded named field of a record.
#[derive(Debug, PartialEq)]
pub struct DecodedField {
    pub name: String,
    pub value: Decoded,
}

/// The decoded payload of a union variant.
#[derive(Debug, PartialEq)]
pub enum VariantValue {
    Unit,
    Newtype(Box<Decoded>),
    Tuple(Vec<Decoded>),
    Record(Vec<DecodedField>),
}

/// The mathematical form of a [`Decoded`] value.
#[verifier::ext_equal]
pub enum SpecDecoded {
    Unit,
    Bool(bool),
    I8(i8),
    I16(i16),
    I32(i32),
    I64(i64),
    I128(i128),
    U8(u8),
    U16(u16),
    U32(u32),
    U64(u64),
    U128(u128),
    F32(u64),
    F64(u64),
    Char(char),
    Str(Seq<char>),
    Bytes(Seq<u8>),
    Absent,
    Present(Box<SpecDecoded>),
    Sequence(Seq<SpecDecoded>),
    Mapping(Seq<SpecDecodedEntry>),
    Record(Seq<SpecDecodedField>),
    Variant(Seq<char>, SpecVariantValue),
}

/// The mathematical form of a [`DecodedEntry`].
#[verifier::ext_equal]
pub struct SpecDecodedEntry {
    pub key: SpecDecoded,
    pub value: SpecDecoded,
}

/// The mathematical form of a [`DecodedField`].
#[verifier::ext_equal]
pub struct SpecDecodedField {
    pub name: Seq<char>,
    pub value: SpecDecoded,
}

/// The mathematical form of a [`VariantValue`].
#[verifier::ext_equal]
pub enum SpecVariantValue {
    Unit,
    Newtype(Box<SpecDecoded>),
    Tuple(Seq<SpecDecoded>),
    Record(Seq<SpecDecodedField>),
}

/// The mathematical form of one decoded value.
pub open spec fn view_decoded(d: Decoded) -> SpecDecoded
    decreases d,
{
    match d {
        Decoded::Unit => SpecDecoded::Unit,
        Decoded::Bool(b) => SpecDecoded::Bool(b),
        Decoded::I8(x) => SpecDecoded::I8(x),
        Decoded::I16(x) => SpecDecoded::I16(x),
        Decoded::I32(x) => SpecDecoded::I32(x),
        Decoded::I64(x) => SpecDecoded::I64(x),
        Decoded::I128(x) => SpecDecoded::I128(x),
        Decoded::U8(x) => SpecDecoded::U8(x),
        Decoded::U16(x) => SpecDecoded::U16(x),
        Decoded::U32(x) => SpecDecoded::U32(x),
        Decoded::U64(x) => SpecDecoded::U64(x),
        Decoded::U128(x) => SpecDecoded::U128(x),
        Decoded::F32(bits) => SpecDecoded::F32(bits),
        Decoded::F64(bits) => SpecDecoded::F64(bits),
        Decoded::Char(c) => SpecDecoded::Char(c),
        Decoded::Str(s) => SpecDecoded::Str(s@),
        Decoded::Bytes(b) => SpecDecoded::Bytes(b@),
        Decoded::Absent => SpecDecoded::Absent,
        Decoded::Present(inner) => SpecDecoded::Present(Box::new(view_decoded(*inner))),
        Decoded::Sequence(items) => SpecDecoded::Sequence(view_decodeds(items@)),
        Decoded::Mapping(entries) => SpecDecoded::Mapping(view_decoded_entries(entries@)),
        Decoded::Record(fields) => SpecDecoded::Record(view_decoded_fields(fields@)),
        Decoded::Variant(name, payload) => SpecDecoded::Variant(
            name@,
            view_variant_value(payload),
        ),
    }
}

/// The mathematical form of a sequence of decoded values.
pub open spec fn view_decodeds(s: Seq<Decoded>) -> Seq<SpecDecoded>
    decreases s,
{
    if s.len() == 0 {
        Seq::empty()
    } else {
        view_decodeds(s.drop_last()).push(view_decoded(s.last()))
    }
}

/// The mathematical form of a sequence of decoded mapping entries.
pub open spec fn view_decoded_entries(s: Seq<DecodedEntry>) -> Seq<SpecDecodedEntry>
    decreases s,
{
    if s.len() == 0 {
        Seq::empty()
    } else {
        view_decoded_entries(s.drop_last()).push(
            SpecDecodedEntry {
                key: view_decoded(s.last().key),
                value: view_decoded(s.last().value),
            },
        )
    }
}

/// The mathematical form of a sequence of decoded record fields.
pub open spec fn view_decoded_fields(s: Seq<DecodedField>) -> Seq<SpecDecodedField>
    decreases s,
{
    if s.len() == 0 {
        Seq::empty()
    } else {
        view_decoded_fields(s.drop_last()).push(
            SpecDecodedField { name: s.last().name@, value: view_decoded(s.last().value) },
        )
    }
}

/// The mathematical form of a decoded variant payload.
pub open spec fn view_variant_value(v: VariantValue) -> SpecVariantValue
    decreases v,
{
    match v {
        VariantValue::Unit => SpecVariantValue::Unit,
        VariantValue::Newtype(inner) => SpecVariantValue::Newtype(
            Box::new(view_decoded(*inner)),
        ),
        VariantValue::Tuple(items) => SpecVariantValue::Tuple(view_decodeds(items@)),
        VariantValue::Record(fields) => SpecVariantValue::Record(view_decoded_fields(fields@)),
    }
}

impl DeepView for Decoded {
    type V = SpecDecoded;

    open spec fn deep_view(&self) -> SpecDecoded {
        view_decoded(*self)
    }
}

impl DeepView for DecodedEntry {
    type V = SpecDecodedEntry;

    open spec fn deep_view(&self) -> SpecDecodedEntry {
        SpecDecodedEntry { key: view_decoded(self.key), value: view_decoded(self.value) }
    }
}

impl DeepView for DecodedField {
    type V = SpecDecodedField;

    open spec fn deep_view(&self) -> SpecDecodedField {
        SpecDecodedField { name: self.name@, value: view_decoded(self.value) }
    }
}

impl DeepView for VariantValue {
    type V = SpecVariantValue;

    open spec fn deep_view(&self) -> SpecVariantValue {
        view_variant_value(*self)
    }
}

} // verus!
