//! Big unsigned integers, as the `num-bigint` crate provides them.
//!
//! Verus does not look inside a `BigUint`. The number that one holds is
//! named by `biguint_value`, and each function below is believed to do to
//! that number what its contract says.

use num_bigint::BigUint;
use num_traits::ToPrimitive;
use vstd::arithmetic::power::pow;
use vstd::prelude::*;

verus! {

/// `num_bigint::BigUint`: a big unsigned integer. Nothing inside it is
/// visible here.
#[verifier::external_type_specification]
#[verifier::external_body]
pub struct ExBigUint(num_bigint::BigUint);

/// The number that a `BigUint` holds.
pub uninterp spec fn biguint_value(n: BigUint) -> nat;

/// The number that `bytes` spell in base 256, the first byte counting most.
pub open spec fn be_value(bytes: Seq<u8>) -> nat
    decreases bytes.len(),
{
    if bytes.len() == 0 {
        0
    } else {
        be_value(bytes.drop_last()) * 256 + bytes.last() as nat
    }
}

/// `BigUint::from_bytes_be`: the number that the bytes spell, read in
/// big-endian order. No bytes give zero.
#[verifier::external_body]
pub(crate) fn biguint_from_bytes_be(bytes: &Vec<u8>) -> (n: BigUint)
    ensures
        biguint_value(n) == be_value(bytes@),
{
    BigUint::from_bytes_be(bytes.as_slice())
}

/// `BigUint::from` on a `u32`: the same number.
#[verifier::external_body]
pub(crate) fn biguint_from_u32(x: u32) -> (n: BigUint)
    ensures
        biguint_value(n) == x,
{
    BigUint::from(x)
}

/// `BigUint::pow`: `base` raised to `exponent`.
#[verifier::external_body]
pub(crate) fn biguint_pow(base: &BigUint, exponent: u32) -> (n: BigUint)
    ensures
        biguint_value(n) == pow(biguint_value(*base) as int, exponent as nat),
{
    base.pow(exponent)
}

/// The remainder operator `%` of two `BigUint`s. It panics on a zero
/// modulus, which callers must rule out.
#[verifier::external_body]
pub(crate) fn biguint_rem(n: BigUint, modulus: BigUint) -> (rest: BigUint)
    requires
        biguint_value(modulus) != 0,
    ensures
        biguint_value(rest) == biguint_value(n) % biguint_value(modulus),
{
    n % modulus
}

/// `Clone::clone` on a `BigUint`: a `BigUint` that holds the same number.
#[verifier::external_body]
pub(crate) fn biguint_clone(n: &BigUint) -> (copy: BigUint)
    ensures
        biguint_value(copy) == biguint_value(*n),
{
    n.clone()
}

/// `ToPrimitive::to_u32` on a `BigUint`: the number, if it fits in a `u32`.
#[verifier::external_body]
pub(crate) fn biguint_to_u32(n: &BigUint) -> (small: Option<u32>)
    ensures
        small == if biguint_value(*n) <= u32::MAX {
            Some(biguint_value(*n) as u32)
        } else {
            None
        },
{
    n.to_u32()
}

} // verus!
