//! The arithmetic on natural numbers, which is the `num` crate's. Nothing in this
//! file is proved: each function turns its operands into `num`'s `BigUint`, hands
//! one operation to `num`, and turns the result back; its contract records what
//! that operation computes.
//!
//! Two conversions recur. `BigUint::new` takes the digits of a number in base
//! 2^32, least significant first, and `BigUint::to_u32_digits` returns them: the
//! same digits that a [`Natural`] holds.

use crate::decimal::{decimal_digits, decimal_value, is_decimal};
use crate::natural::{integer, Natural};
use num::{BigUint, Integer, ToPrimitive};
use num::bigint::ParseBigIntError;
use vstd::prelude::*;

verus! {

/// `num::bigint::ParseBigIntError`, the error of `num`'s parser. It is only
/// carried through.
#[verifier::external_type_specification]
#[verifier::external_body]
pub struct ExParseBigIntError(ParseBigIntError);

/// `ToPrimitive::to_u64` on a `BigUint`: the number itself where it lies within
/// the range of `u64`, and `None` where it is too large.
#[verifier::external_body]
pub(crate) fn to_u64(n: &Natural) -> (r: Option<u64>)
    ensures
        r == (if integer(*n) <= u64::MAX {
            Some(integer(*n) as u64)
        } else {
            None
        }),
{
    BigUint::new(n.digits.clone()).to_u64()
}

/// `==` on two `BigUint`s (`PartialEq::eq`): whether they are the same number.
#[verifier::external_body]
pub(crate) fn same(a: &Natural, b: &Natural) -> (r: bool)
    ensures
        r == (integer(*a) == integer(*b)),
{
    BigUint::new(a.digits.clone()) == BigUint::new(b.digits.clone())
}

/// `<` on two `BigUint`s (`PartialOrd::lt`): whether the first number is the
/// smaller one.
#[verifier::external_body]
pub(crate) fn less(a: &Natural, b: &Natural) -> (r: bool)
    ensures
        r == (integer(*a) < integer(*b)),
{
    BigUint::new(a.digits.clone()) < BigUint::new(b.digits.clone())
}

/// `+` on two `BigUint`s (`Add::add`): the sum, which cannot overflow.
#[verifier::external_body]
pub(crate) fn sum(a: &Natural, b: &Natural) -> (r: Natural)
    ensures
        integer(r) == integer(*a) + integer(*b),
{
    let total = BigUint::new(a.digits.clone()) + BigUint::new(b.digits.clone());
    Natural { digits: total.to_u32_digits() }
}

/// `*` on two `BigUint`s (`Mul::mul`): the product, which cannot overflow.
#[verifier::external_body]
pub(crate) fn product(a: &Natural, b: &Natural) -> (r: Natural)
    ensures
        integer(r) == integer(*a) * integer(*b),
{
    let total = BigUint::new(a.digits.clone()) * BigUint::new(b.digits.clone());
    Natural { digits: total.to_u32_digits() }
}

/// `Integer::div_rem` on two `BigUint`s: the quotient and the remainder of the
/// division. A zero divisor, on which `num` panics, is left out.
#[verifier::external_body]
pub(crate) fn div_rem(a: &Natural, b: &Natural) -> (r: (Natural, Natural))
    requires
        integer(*b) > 0,
    ensures
        integer(r.0) == integer(*a) / integer(*b),
        integer(r.1) == integer(*a) % integer(*b),
{
    let (quotient, rest) = BigUint::new(a.digits.clone()).div_rem(&BigUint::new(b.digits.clone()));
    (Natural { digits: quotient.to_u32_digits() }, Natural { digits: rest.to_u32_digits() })
}

/// `str::parse` for `BigUint` (its `FromStr`, which reads radix 10): on a
/// numeral, that is a string of one or more decimal digits and nothing else, it
/// succeeds with the number that the numeral stands for. Other strings, some of
/// which `num` accepts too (a plus sign in front, underscores between digits),
/// are left out.
#[verifier::external_body]
pub(crate) fn parse_decimal(text: &str) -> (r: Result<Natural, ParseBigIntError>)
    requires
        is_decimal(text@),
    ensures
        r is Ok,
        integer(r->Ok_0) == decimal_value(text@),
{
    match text.parse::<BigUint>() {
        Ok(number) => Ok(Natural { digits: number.to_u32_digits() }),
        Err(error) => Err(error),
    }
}

/// `ToString::to_string` on a `BigUint` (its `Display`): the decimal numeral of
/// the number, without sign or leading zeros.
#[verifier::external_body]
pub(crate) fn to_decimal(n: &Natural) -> (r: String)
    ensures
        r@ == decimal_digits(integer(*n)),
{
    BigUint::new(n.digits.clone()).to_string()
}

} // verus!
