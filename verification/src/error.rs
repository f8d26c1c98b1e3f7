//! The structured error taxonomy of the engine.
//!
//! Every component signals failure by returning one of these values
//! immediately; the first failure aborts the whole conversion and reaches the
//! caller unchanged.

use vstd::prelude::*;

verus! {

/// The structural category of a dynamic value, as the classifier reports it.
///
/// List-like, tuple-like and set-like collections all admit sequence-style
/// access and share the `Sequence` category.
#[derive(Clone, Copy, Debug, PartialEq, Eq, Structural)]
pub enum Category {
    /// The absence / unit sentinel.
    Null,
    Boolean,
    Integer,
    Float,
    Text,
    Bytes,
    Sequence,
    Mapping,
    /// A value of no supported category.
    Unknown,
}

impl DeepView for Category {
    type V = Category;

    open spec fn deep_view(&self) -> Category {
        *self
    }
}

/// A structured conversion error.
#[derive(Debug, PartialEq)]
pub enum DecodeError {
    /// The classifier reached no matching category; carries the runtime
    /// type's display name.
    UnsupportedType(String),
    /// The schema requested one shape, the value is structurally another.
    TypeMismatch { expected: Category, got: Category },
    /// A sequence's length differs from the schema-declared expected length.
    IncorrectLength { expected: usize, got: usize },
    /// Text was not exactly one code point where a character was required.
    InvalidLengthChar,
    /// A union's mapping form has other than exactly one entry, or neither
    /// the mapping form nor the bare text form matches.
    InvalidUnionRepresentation,
    /// A mapping key required to be an identifier or tag is not text.
    NonTextKey,
    /// A union tag names no declared variant.
    UnknownVariant(String),
    /// A record entry for a required field never appeared.
    MissingField(String),
    /// A record entry for the same field appeared twice.
    DuplicateField(String),
    /// The dynamic object model could not hand the integer out at the
    /// requested width.
    IntOutOfRange,
    /// No variant of an untagged union matched the value structurally.
    UntaggedMismatch,
}

/// The mathematical form of a [`DecodeError`].
#[verifier::ext_equal]
pub enum SpecError {
    UnsupportedType(Seq<char>),
    TypeMismatch { expected: Category, got: Category },
    IncorrectLength { expected: int, got: int },
    InvalidLengthChar,
    InvalidUnionRepresentation,
    NonTextKey,
    UnknownVariant(Seq<char>),
    MissingField(Seq<char>),
    DuplicateField(Seq<char>),
    IntOutOfRange,
    UntaggedMismatch,
}

impl DeepView for DecodeError {
    type V = SpecError;

    open spec fn deep_view(&self) -> SpecError {
        match self {
            DecodeError::UnsupportedType(name) => SpecError::UnsupportedType(name@),
            DecodeError::TypeMismatch { expected, got } => SpecError::TypeMismatch {
                expected: *expected,
                got: *got,
            },
            DecodeError::IncorrectLength { expected, got } => SpecError::IncorrectLength {
                expected: *expected as int,
                got: *got as int,
            },
            DecodeError::InvalidLengthChar => SpecError::InvalidLengthChar,
            DecodeError::InvalidUnionRepresentation => SpecError::InvalidUnionRepresentation,
            DecodeError::NonTextKey => SpecError::NonTextKey,
            DecodeError::UnknownVariant(name) => SpecError::UnknownVariant(name@),
            DecodeError::MissingField(name) => SpecError::MissingField(name@),
            DecodeError::DuplicateField(name) => SpecError::DuplicateField(name@),
            DecodeError::IntOutOfRange => SpecError::IntOutOfRange,
            DecodeError::UntaggedMismatch => SpecError::UntaggedMismatch,
        }
    }
}

} // verus!
