//! Typed values on the wire.
//!
//! Every value travels as a type tag and raw bits. This client speaks
//! only the 32-bit float type, `REAL`; its bits are the IEEE-754
//! binary32 pattern of the value, kept as a `u32` so that every rule
//! about them is exact. Decoding checks the tag: a reply whose tag is
//! not `REAL` is a type mismatch, never a silent coercion.

use vstd::prelude::*;

use crate::errors::TagError;

verus! {

/// The wire type code of `REAL`, the 32-bit float.
pub const REAL_TYPE_CODE: u16 = 0xCA;

/// A value together with its declared type. Only the `REAL` shape
/// exists here, so a `TypedValue` always carries matching tag and bits.
#[derive(Clone, Copy, Debug, PartialEq, Eq, Structural)]
pub enum TypedValue {
    /// A 32-bit float, stored as its IEEE-754 binary32 bit pattern.
    Real(u32),
}

impl TypedValue {
    /// The wire type code of this value's declared type.
    pub fn type_code(&self) -> (c: u16)
        ensures
            c == REAL_TYPE_CODE,
    {
        match self {
            TypedValue::Real(_) => REAL_TYPE_CODE,
        }
    }

    /// The raw bits of this value.
    pub fn bits(&self) -> (b: u32)
        ensures
            *self == TypedValue::Real(b),
    {
        match self {
            TypedValue::Real(b) => *b,
        }
    }
}

/// Decodes a reply: the declared type code and the raw bits. Exactly the
/// `REAL` code yields a value; any other code is a type mismatch.
pub fn decode_real(type_code: u16, bits: u32) -> (r: Result<TypedValue, TagError>)
    ensures
        type_code == REAL_TYPE_CODE ==> r == Ok::<TypedValue, TagError>(TypedValue::Real(bits)),
        type_code != REAL_TYPE_CODE ==> r == Err::<TypedValue, TagError>(TagError::TypeMismatch),
{
    if type_code == REAL_TYPE_CODE {
        Ok(TypedValue::Real(bits))
    } else {
        Err(TagError::TypeMismatch)
    }
}

} // verus!
