//! The scalar converter's narrowing ladder for arbitrary-width integers.
//!
//! An integer of unsigned origin is offered the unsigned widths in ascending
//! order, one of signed origin the signed widths, and the first width that
//! holds the value exactly wins.  This picks the most specific
//! representation, never merely a large-enough one, so a generic-value sink
//! can round-trip the number at its natural width.

use vstd::prelude::*;

use crate::decoded::{Decoded, SpecDecoded};
use crate::error::{DecodeError, SpecError};
use crate::value::DynInt;
use crate::view_result;

verus! {

/// The widest magnitude a negative integer may carry and still be handed out
/// by the dynamic object model at a signed width.
pub const SIGNED_LIMIT: u128 = 0x8000_0000_0000_0000_0000_0000_0000_0000;

/// The smallest exact fixed-width representation of `i`: the unsigned ladder
/// for a non-negative integer, the signed ladder for a negative one.  A
/// negative integer below the widest signed range cannot be extracted from
/// the dynamic object model at all and fails.
pub open spec fn spec_narrow(i: DynInt) -> Result<SpecDecoded, SpecError> {
    if !i.negative {
        let m = i.magnitude;
        if m <= 0xff {
            Ok(SpecDecoded::U8(m as u8))
        } else if m <= 0xffff {
            Ok(SpecDecoded::U16(m as u16))
        } else if m <= 0xffff_ffff {
            Ok(SpecDecoded::U32(m as u32))
        } else if m <= 0xffff_ffff_ffff_ffff {
            Ok(SpecDecoded::U64(m as u64))
        } else {
            Ok(SpecDecoded::U128(m))
        }
    } else {
        let v = i.spec_value();
        if v >= -0x80 {
            Ok(SpecDecoded::I8(v as i8))
        } else if v >= -0x8000 {
            Ok(SpecDecoded::I16(v as i16))
        } else if v >= -0x8000_0000 {
            Ok(SpecDecoded::I32(v as i32))
        } else if v >= -0x8000_0000_0000_0000 {
            Ok(SpecDecoded::I64(v as i64))
        } else if v >= -0x8000_0000_0000_0000_0000_0000_0000_0000 {
            Ok(SpecDecoded::I128(v as i128))
        } else {
            Err(SpecError::IntOutOfRange)
        }
    }
}

/// Narrow `i` to the smallest exact fixed-width representation.
pub fn narrow_int(i: &DynInt) -> (r: Result<Decoded, DecodeError>)
    ensures
        view_result(r) == spec_narrow(*i),
{
    let m = i.magnitude;
    if !i.negative {
        if m <= 0xff {
            Ok(Decoded::U8(m as u8))
        } else if m <= 0xffff {
            Ok(Decoded::U16(m as u16))
        } else if m <= 0xffff_ffff {
            Ok(Decoded::U32(m as u32))
        } else if m <= 0xffff_ffff_ffff_ffff {
            Ok(Decoded::U64(m as u64))
        } else {
            Ok(Decoded::U128(m))
        }
    } else {
        if m < SIGNED_LIMIT {
            let v: i128 = -(m as i128);
            if v >= -0x80 {
                Ok(Decoded::I8(v as i8))
            } else if v >= -0x8000 {
                Ok(Decoded::I16(v as i16))
            } else if v >= -0x8000_0000 {
                Ok(Decoded::I32(v as i32))
            } else if v >= -0x8000_0000_0000_0000 {
                Ok(Decoded::I64(v as i64))
            } else {
                Ok(Decoded::I128(v))
            }
        } else if m == SIGNED_LIMIT {
            Ok(Decoded::I128(i128::MIN))
        } else {
            Err(DecodeError::IntOutOfRange)
        }
    }
}

} // verus!
