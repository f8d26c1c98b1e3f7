//! Schema requests: the caller-declared static shape a target value must
//! conform to.
//!
//! A schema request is recursive: a record's field schema is itself a schema
//! request.  Integer and float requests carry their bit width in the variant
//! itself.

use vstd::prelude::*;

verus! {

/// The shape the caller expects of one dynamic value.
#[derive(Debug)]
pub enum Schema {
    /// Whatever shape is actually present; the classifier decides.
    Any,
    /// A boolean, read through the truthiness protocol.
    Bool,
    I8,
    I16,
    I32,
    I64,
    I128,
    U8,
    U16,
    U32,
    U64,
    U128,
    /// A float stored at 32-bit width.
    F32,
    /// A float stored at 64-bit width.
    F64,
    /// A single character: text of exactly one code point.
    Char,
    /// Text.
    Str,
    /// A byte buffer.
    Bytes,
    /// An optional value: the absence sentinel or the inner shape.
    Optional(Box<Schema>),
    /// The unit / absence sentinel itself.
    Unit,
    /// An open-ended homogeneous sequence.
    Sequence(Box<Schema>),
    /// A fixed-size tuple: one schema per position, the arity is the
    /// expected length.
    Tuple(Vec<Schema>),
    /// A homogeneous mapping: a key schema and a value schema.
    Mapping(Box<Schema>, Box<Schema>),
    /// A named-field record, with its ordered field list.
    Record(Vec<FieldSchema>),
    /// An externally tagged union, with its ordered variant list.
    Union(Vec<VariantSchema>),
    /// An untagged union: each variant is tried structurally, in order.
    Untagged(Vec<VariantSchema>),
    /// A field identifier: text in key position.
    Identifier,
    /// A value the caller does not care about; always accepted.
    Ignored,
}

/// One named field of a record request.
#[derive(Debug)]
pub struct FieldSchema {
    pub name: String,
    pub schema: Schema,
}

/// One named variant of a union request.
#[derive(Debug)]
pub struct VariantSchema {
    pub name: String,
    pub shape: VariantShape,
}

/// The payload shape of a union variant.
#[derive(Debug)]
pub enum VariantShape {
    /// No payload.
    Unit,
    /// A single positional payload.
    Newtype(Box<Schema>),
    /// A fixed-arity positional payload.
    Tuple(Vec<Schema>),
    /// A named-field payload.
    Record(Vec<FieldSchema>),
}

/// The mathematical form of a [`Schema`].
#[verifier::ext_equal]
pub enum SpecSchema {
    Any,
    Bool,
    I8,
    I16,
    I32,
    I64,
    I128,
    U8,
    U16,
    U32,
    U64,
    U128,
    F32,
    F64,
    Char,
    Str,
    Bytes,
    Optional(Box<SpecSchema>),
    Unit,
    Sequence(Box<SpecSchema>),
    Tuple(Seq<SpecSchema>),
    Mapping(Box<SpecSchema>, Box<SpecSchema>),
    Record(Seq<SpecField>),
    Union(Seq<SpecVariant>),
    Untagged(Seq<SpecVariant>),
    Identifier,
    Ignored,
}

/// The mathematical form of a [`FieldSchema`].
#[verifier::ext_equal]
pub struct SpecField {
    pub name: Seq<char>,
    pub schema: SpecSchema,
}

/// The mathematical form of a [`VariantSchema`].
#[verifier::ext_equal]
pub struct SpecVariant {
    pub name: Seq<char>,
    pub shape: SpecShape,
}

/// The mathematical form of a [`VariantShape`].
#[verifier::ext_equal]
pub enum SpecShape {
    Unit,
    Newtype(Box<SpecSchema>),
    Tuple(Seq<SpecSchema>),
    Record(Seq<SpecField>),
}

/// The mathematical form of one schema request.
pub open spec fn view_schema(s: Schema) -> SpecSchema
    decreases s,
{
    match s {
        Schema::Any => SpecSchema::Any,
        Schema::Bool => SpecSchema::Bool,
        Schema::I8 => SpecSchema::I8,
        Schema::I16 => SpecSchema::I16,
        Schema::I32 => SpecSchema::I32,
        Schema::I64 => SpecSchema::I64,
        Schema::I128 => SpecSchema::I128,
        Schema::U8 => SpecSchema::U8,
        Schema::U16 => SpecSchema::U16,
        Schema::U32 => SpecSchema::U32,
        Schema::U64 => SpecSchema::U64,
        Schema::U128 => SpecSchema::U128,
        Schema::F32 => SpecSchema::F32,
        Schema::F64 => SpecSchema::F64,
        Schema::Char => SpecSchema::Char,
        Schema::Str => SpecSchema::Str,
        Schema::Bytes => SpecSchema::Bytes,
        Schema::Optional(inner) => SpecSchema::Optional(Box::new(view_schema(*inner))),
        Schema::Unit => SpecSchema::Unit,
        Schema::Sequence(inner) => SpecSchema::Sequence(Box::new(view_schema(*inner))),
        Schema::Tuple(ss) => SpecSchema::Tuple(view_schemas(ss@)),
        Schema::Mapping(k, v) => SpecSchema::Mapping(
            Box::new(view_schema(*k)),
            Box::new(view_schema(*v)),
        ),
        Schema::Record(fields) => SpecSchema::Record(view_fields(fields@)),
        Schema::Union(variants) => SpecSchema::Union(view_variants(variants@)),
        Schema::Untagged(variants) => SpecSchema::Untagged(view_variants(variants@)),
        Schema::Identifier => SpecSchema::Identifier,
        Schema::Ignored => SpecSchema::Ignored,
    }
}

/// The mathematical form of a sequence of schema requests.
pub open spec fn view_schemas(s: Seq<Schema>) -> Seq<SpecSchema>
    decreases s,
{
    if s.len() == 0 {
        Seq::empty()
    } else {
        view_schemas(s.drop_last()).push(view_schema(s.last()))
    }
}

/// The mathematical form of a record's field list.
pub open spec fn view_fields(s: Seq<FieldSchema>) -> Seq<SpecField>
    decreases s,
{
    if s.len() == 0 {
        Seq::empty()
    } else {
        view_fields(s.drop_last()).push(
            SpecField { name: s.last().name@, schema: view_schema(s.last().schema) },
        )
    }
}

/// The mathematical form of a union's variant list.
pub open spec fn view_variants(s: Seq<VariantSchema>) -> Seq<SpecVariant>
    decreases s,
{
    if s.len() == 0 {
        Seq::empty()
    } else {
        view_variants(s.drop_last()).push(
            SpecVariant { name: s.last().name@, shape: view_shape(s.last().shape) },
        )
    }
}

/// The mathematical form of a variant's payload shape.
pub open spec fn view_shape(s: VariantShape) -> SpecShape
    decreases s,
{
    match s {
        VariantShape::Unit => SpecShape::Unit,
        VariantShape::Newtype(inner) => SpecShape::Newtype(Box::new(view_schema(*inner))),
        VariantShape::Tuple(ss) => SpecShape::Tuple(view_schemas(ss@)),
        VariantShape::Record(fields) => SpecShape::Record(view_fields(fields@)),
    }
}

impl DeepView for Schema {
    type V = SpecSchema;

    open spec fn deep_view(&self) -> SpecSchema {
        view_schema(*self)
    }
}

impl DeepView for FieldSchema {
    type V = SpecField;

    open spec fn deep_view(&self) -> SpecField {
        SpecField { name: self.name@, schema: view_schema(self.schema) }
    }
}

impl DeepView for VariantSchema {
    type V = SpecVariant;

    open spec fn deep_view(&self) -> SpecVariant {
        SpecVariant { name: self.name@, shape: view_shape(self.shape) }
    }
}

impl DeepView for VariantShape {
    type V = SpecShape;

    open spec fn deep_view(&self) -> SpecShape {
        view_shape(*self)
    }
}

/// `view_schemas` maps `view_schema` over the sequence, position by position.
pub proof fn lemma_view_schemas(s: Seq<Schema>)
    ensures
        view_schemas(s).len() == s.len(),
        forall|i: int| 0 <= i < s.len() ==> view_schemas(s)[i] == view_schema(#[trigger] s[i]),
    decreases s,
{
    if s.len() > 0 {
        lemma_view_schemas(s.drop_last());
        assert forall|i: int| 0 <= i < s.len() implies view_schemas(s)[i] == view_schema(
            #[trigger] s[i],
        ) by {
            if i < s.len() - 1 {
                assert(s.drop_last()[i] == s[i]);
                assert(view_schemas(s)[i] == view_schemas(s.drop_last())[i]);
            } else {
                assert(s.last() == s[i]);
            }
        }
    }
}

/// `view_fields` maps the field view over the sequence, position by position.
pub proof fn lemma_view_fields(s: Seq<FieldSchema>)
    ensures
        view_fields(s).len() == s.len(),
        forall|i: int| 0 <= i < s.len() ==> view_fields(s)[i] == (#[trigger] s[i]).deep_view(),
    decreases s,
{
    if s.len() > 0 {
        lemma_view_fields(s.drop_last());
        assert forall|i: int| 0 <= i < s.len() implies view_fields(s)[i] == (
        #[trigger] s[i]).deep_view() by {
            if i < s.len() - 1 {
                assert(s.drop_last()[i] == s[i]);
                assert(view_fields(s)[i] == view_fields(s.drop_last())[i]);
            } else {
                assert(s.last() == s[i]);
            }
        }
    }
}

/// `view_variants` maps the variant view over the sequence, position by
/// position.
pub proof fn lemma_view_variants(s: Seq<VariantSchema>)
    ensures
        view_variants(s).len() == s.len(),
        forall|i: int| 0 <= i < s.len() ==> view_variants(s)[i] == (#[trigger] s[i]).deep_view(),
    decreases s,
{
    if s.len() > 0 {
        lemma_view_variants(s.drop_last());
        assert forall|i: int| 0 <= i < s.len() implies view_variants(s)[i] == (
        #[trigger] s[i]).deep_view() by {
            if i < s.len() - 1 {
                assert(s.drop_last()[i] == s[i]);
                assert(view_variants(s)[i] == view_variants(s.drop_last())[i]);
            } else {
                assert(s.last() == s[i]);
            }
        }
    }
}

} // verus!
