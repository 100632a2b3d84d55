//! The description of a circuit's inputs that is handed to whoever calls it.

use vstd::prelude::*;

verus! {

/// Whether an input is public or private.
#[derive(Clone, Copy, Debug, PartialEq, Eq, Structural, Hash)]
pub enum AbiFEType {
    Public,
    Private,
}

/// Whether an integer input is signed.
#[derive(Clone, Copy, Debug, PartialEq, Eq, Structural, Hash)]
pub enum Sign {
    Unsigned,
    Signed,
}

/// The type of an input as the interface describes it.
#[derive(Debug, PartialEq, Eq)]
pub enum AbiType {
    Field(AbiFEType),
    Array { visibility: AbiFEType, length: u128, typ: Box<AbiType> },
    Integer { sign: Sign, width: u32, visibility: AbiFEType },
}

impl Clone for AbiType {
    fn clone(&self) -> (copy: AbiType)
        ensures
            copy == *self,
        decreases self,
    {
        match self {
            AbiType::Field(visibility) => AbiType::Field(*visibility),
            AbiType::Array { visibility, length, typ } => AbiType::Array {
                visibility: *visibility,
                length: *length,
                typ: Box::new((&**typ).clone()),
            },
            AbiType::Integer { sign, width, visibility } => AbiType::Integer {
                sign: *sign,
                width: *width,
                visibility: *visibility,
            },
        }
    }
}

} // verus!
