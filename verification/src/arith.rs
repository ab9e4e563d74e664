//! Arbitrary-precision integers, provided by the `num_bigint` crate.
//!
//! `num_bigint::BigInt` is a bignum: a container holding one unbounded
//! integer.  The spec function [`int_value`] names the integer such a
//! container holds; every trusted wrapper below states what the wrapped
//! operation does to that value.

use vstd::prelude::*;

verus! {

#[verifier::external_type_specification]
#[verifier::external_body]
pub struct ExBigInt(num_bigint::BigInt);

/// The integer held by a `num_bigint::BigInt` container.
pub uninterp spec fn int_value(x: num_bigint::BigInt) -> int;

/// Relies on `BigInt::from::<i64>`: builds a bignum holding `v`.
#[verifier::external_body]
pub fn int_from_i64(v: i64) -> (r: num_bigint::BigInt)
    ensures
        int_value(r) == v as int,
{
    num_bigint::BigInt::from(v)
}

/// Relies on `BigInt::clone`: the copy holds the same integer.
#[verifier::external_body]
pub fn int_clone(a: &num_bigint::BigInt) -> (r: num_bigint::BigInt)
    ensures
        int_value(r) == int_value(*a),
{
    a.clone()
}

/// Relies on `Add` for `&BigInt`: exact addition, no overflow.
#[verifier::external_body]
pub fn int_add(a: &num_bigint::BigInt, b: &num_bigint::BigInt) -> (r: num_bigint::BigInt)
    ensures
        int_value(r) == int_value(*a) + int_value(*b),
{
    a + b
}

/// Relies on `Sub` for `&BigInt`: exact subtraction.
#[verifier::external_body]
pub fn int_sub(a: &num_bigint::BigInt, b: &num_bigint::BigInt) -> (r: num_bigint::BigInt)
    ensures
        int_value(r) == int_value(*a) - int_value(*b),
{
    a - b
}

/// Relies on `Mul` for `&BigInt`: exact multiplication.
#[verifier::external_body]
pub fn int_mul(a: &num_bigint::BigInt, b: &num_bigint::BigInt) -> (r: num_bigint::BigInt)
    ensures
        int_value(r) == int_value(*a) * int_value(*b),
{
    a * b
}

/// Relies on `Neg` for `&BigInt`.
#[verifier::external_body]
pub fn int_neg(a: &num_bigint::BigInt) -> (r: num_bigint::BigInt)
    ensures
        int_value(r) == -int_value(*a),
{
    -a
}

/// Relies on `PartialOrd` for `BigInt`: numeric order.
#[verifier::external_body]
pub fn int_lt(a: &num_bigint::BigInt, b: &num_bigint::BigInt) -> (r: bool)
    ensures
        r == (int_value(*a) < int_value(*b)),
{
    a < b
}

/// Relies on `PartialEq` for `BigInt`: numeric equality.
#[verifier::external_body]
pub fn int_eq(a: &num_bigint::BigInt, b: &num_bigint::BigInt) -> (r: bool)
    ensures
        r == (int_value(*a) == int_value(*b)),
{
    a == b
}

/// Relies on `Div` for `&BigInt`: quotient rounded towards zero, which
/// agrees with Euclidean division on the nonnegative dividends and
/// positive divisors admitted here.  Division by zero would panic and
/// is ruled out.
#[verifier::external_body]
pub fn int_div(n: &num_bigint::BigInt, d: &num_bigint::BigInt) -> (r: num_bigint::BigInt)
    requires
        int_value(*n) >= 0,
        int_value(*d) > 0,
    ensures
        int_value(r) == int_value(*n) / int_value(*d),
{
    n / d
}

/// Relies on `Rem` for `&BigInt`: remainder with the sign of the
/// dividend, which agrees with the Euclidean remainder on the
/// nonnegative dividends and positive divisors admitted here.
#[verifier::external_body]
pub fn int_rem(n: &num_bigint::BigInt, d: &num_bigint::BigInt) -> (r: num_bigint::BigInt)
    requires
        int_value(*n) >= 0,
        int_value(*d) > 0,
    ensures
        int_value(r) == int_value(*n) % int_value(*d),
{
    n % d
}

/// `a <= b`, derived from the strict order.
pub fn int_le(a: &num_bigint::BigInt, b: &num_bigint::BigInt) -> (r: bool)
    ensures
        r == (int_value(*a) <= int_value(*b)),
{
    !int_lt(b, a)
}

} // verus!
