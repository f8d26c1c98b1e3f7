//! A verified engine that converts values of a dynamic, runtime-typed object
//! model into values of a statically declared target schema.
//!
//! The dynamic side is modelled by [`value::DynValue`]: integers of arbitrary
//! width, floats (carried as bit patterns), text, byte buffers, sequences,
//! mappings, set-like collections and a distinguished absence value.  The
//! static side is a recursive [`schema::Schema`] request.  The engine walks the
//! two together and produces either a fully formed [`decoded::Decoded`] value
//! or a structured [`error::DecodeError`], never a partial result.

pub mod classify;
pub mod de;
pub mod decoded;
pub mod error;
pub mod laws;
pub mod narrow;
pub mod schema;
pub mod sem;
pub mod value;

use vstd::prelude::*;

verus! {

/// The mathematical form of a `Result`, both sides viewed.
pub open spec fn view_result<T: DeepView, E: DeepView>(r: Result<T, E>) -> Result<T::V, E::V> {
    match r {
        Ok(t) => Ok(t.deep_view()),
        Err(e) => Err(e.deep_view()),
    }
}

} // verus!
