//! 256-bit unsigned arithmetic for the accumulator formulas.
//!
//! Products of two 128-bit quantities do not fit in `u128`, so the share
//! formulas are evaluated in 256 bits. The arithmetic itself is done by
//! `primitive_types::U256`; this module carries such a number as its four
//! little-endian 64-bit words and states, for each operation that is used,
//! what the operation returns.
use vstd::prelude::*;
use vstd::arithmetic::power::pow;

verus! {

/// 2^64, the weight of the second word.
pub open spec fn word1() -> nat {
    0x1_0000_0000_0000_0000
}

/// 2^128, the weight of the third word.
pub open spec fn word2() -> nat {
    0x1_0000_0000_0000_0000_0000_0000_0000_0000nat
}

/// 2^192, the weight of the fourth word.
pub open spec fn word3() -> nat {
    0x1_0000_0000_0000_0000_0000_0000_0000_0000_0000_0000_0000_0000nat
}

/// 2^256, the first number that a `Wide` cannot hold.
pub open spec fn wide_limit() -> nat {
    0x1_0000_0000_0000_0000_0000_0000_0000_0000_0000_0000_0000_0000_0000_0000_0000_0000nat
}

/// An unsigned 256-bit number, held as four 64-bit words, least significant
/// word first.
#[derive(Clone, Copy, Debug)]
pub struct Wide {
    pub limbs: [u64; 4],
}

impl View for Wide {
    type V = nat;

    open spec fn view(&self) -> nat {
        (self.limbs[0] as nat) + (self.limbs[1] as nat) * word1() + (self.limbs[2] as nat)
            * word2() + (self.limbs[3] as nat) * word3()
    }
}

impl Wide {
    /// Whether the number fits in 128 bits.
    pub fn fits_u128(&self) -> (r: bool)
        ensures
            r == (self@ <= u128::MAX),
    {
        self.limbs[2] == 0 && self.limbs[3] == 0
    }
}

/// `U256::from(u128)`: the 256-bit number with the same value.
#[verifier::external_body]
pub(crate) fn wide_from_u128(value: u128) -> (r: Wide)
    ensures
        r@ == value,
{
    Wide { limbs: primitive_types::U256::from(value).0 }
}

/// `U256::as_u128`: the value as a `u128`. The outside function panics when
/// a word above the second is not zero, so such numbers are left out.
#[verifier::external_body]
pub(crate) fn wide_as_u128(a: Wide) -> (r: u128)
    requires
        a@ <= u128::MAX,
    ensures
        r == a@,
{
    primitive_types::U256(a.limbs).as_u128()
}

/// `U256 * U256`: the product. The outside operator panics when the product
/// needs more than 256 bits, so such operands are left out.
#[verifier::external_body]
pub(crate) fn wide_mul(a: Wide, b: Wide) -> (r: Wide)
    requires
        a@ * b@ < wide_limit(),
    ensures
        r@ == a@ * b@,
{
    Wide { limbs: (primitive_types::U256(a.limbs) * primitive_types::U256(b.limbs)).0 }
}

/// `U256 / U256`: the quotient, rounded down. The outside operator panics on
/// a zero divisor, which is left out.
#[verifier::external_body]
pub(crate) fn wide_div(a: Wide, b: Wide) -> (r: Wide)
    requires
        b@ > 0,
    ensures
        r@ == a@ / b@,
{
    Wide { limbs: (primitive_types::U256(a.limbs) / primitive_types::U256(b.limbs)).0 }
}

/// `U256::checked_sub`: the difference, or `None` when the second number is
/// the larger one.
#[verifier::external_body]
pub(crate) fn wide_checked_sub(a: Wide, b: Wide) -> (r: Option<Wide>)
    ensures
        a@ >= b@ ==> r.is_some() && r.unwrap()@ == a@ - b@,
        a@ < b@ ==> r.is_none(),
{
    match primitive_types::U256(a.limbs).checked_sub(primitive_types::U256(b.limbs)) {
        Some(d) => Some(Wide { limbs: d.0 }),
        None => None,
    }
}

/// `U256::overflowing_pow`: exponentiation by squaring with wrapping
/// multiplications. Every intermediate product is a power of the base with
/// an exponent no larger than the requested one, so the flag is set exactly
/// when the power itself needs more than 256 bits; without the flag the
/// result is the power.
#[verifier::external_body]
pub(crate) fn wide_overflowing_pow(base: Wide, exponent: Wide) -> (r: (Wide, bool))
    requires
        base@ >= 1,
    ensures
        r.1 == (pow(base@ as int, exponent@) >= wide_limit()),
        !r.1 ==> r.0@ == pow(base@ as int, exponent@),
{
    let (p, overflow) = primitive_types::U256(base.limbs).overflowing_pow(
        primitive_types::U256(exponent.limbs),
    );
    (Wide { limbs: p.0 }, overflow)
}

/// `U256 == U256`: two numbers are equal when their values are.
#[verifier::external_body]
pub(crate) fn wide_eq(a: Wide, b: Wide) -> (r: bool)
    ensures
        r == (a@ == b@),
{
    primitive_types::U256(a.limbs) == primitive_types::U256(b.limbs)
}

} // verus!
