//! Exact rational numbers as fractions of arbitrary-precision integers.
//!
//! A rational is a pair `num / den` with `den > 0`; the pair is not
//! reduced to lowest terms, so every operation is a handful of exact
//! integer operations.  Comparisons go by cross-multiplication.  The
//! spec-level mirror of a fraction is [`RatV`], a pair of mathematical
//! integers.

use vstd::prelude::*;
use crate::arith::{int_value, int_from_i64, int_clone, int_add, int_sub, int_mul, int_neg,
    int_lt, int_le, int_div, int_rem};

verus! {

/// The mathematical value of a fraction: numerator and denominator.
pub struct RatV {
    pub n: int,
    pub d: int,
}

/// A fraction is well formed when its denominator is positive.
pub open spec fn rat_wf(a: RatV) -> bool {
    a.d > 0
}

pub open spec fn rat_int(n: int) -> RatV {
    RatV { n: n, d: 1 }
}

pub open spec fn rat_add_v(a: RatV, b: RatV) -> RatV {
    RatV { n: a.n * b.d + b.n * a.d, d: a.d * b.d }
}

pub open spec fn rat_sub_v(a: RatV, b: RatV) -> RatV {
    RatV { n: a.n * b.d - b.n * a.d, d: a.d * b.d }
}

pub open spec fn rat_mul_v(a: RatV, b: RatV) -> RatV {
    RatV { n: a.n * b.n, d: a.d * b.d }
}

pub open spec fn rat_neg_v(a: RatV) -> RatV {
    RatV { n: -a.n, d: a.d }
}

/// Exact division; the sign of the divisor's numerator moves into the
/// result's numerator so that the denominator stays positive.
pub open spec fn rat_div_v(a: RatV, b: RatV) -> RatV {
    if b.n >= 0 {
        RatV { n: a.n * b.d, d: a.d * b.n }
    } else {
        RatV { n: -(a.n * b.d), d: -(a.d * b.n) }
    }
}

/// `a <= b`, by cross-multiplication; meaningful for well-formed pairs.
pub open spec fn rat_le_v(a: RatV, b: RatV) -> bool {
    a.n * b.d <= b.n * a.d
}

/// `a < b`, by cross-multiplication; meaningful for well-formed pairs.
pub open spec fn rat_lt_v(a: RatV, b: RatV) -> bool {
    a.n * b.d < b.n * a.d
}

/// `a` and `b` denote the same rational.
pub open spec fn rat_eq_v(a: RatV, b: RatV) -> bool {
    a.n * b.d == b.n * a.d
}

/// `|a| <= b`, by cross-multiplication.
pub open spec fn rat_abs_le_v(a: RatV, b: RatV) -> bool {
    rat_le_v(a, b) && rat_le_v(rat_neg_v(a), b)
}

/// Nearest integer to `n / d` for `n >= 0 < d`, halves rounded up.
pub open spec fn round_nn(n: int, d: int) -> int {
    if 2 * (n % d) >= d {
        n / d + 1
    } else {
        n / d
    }
}

/// Nearest integer to the fraction, halves rounded away from zero.
pub open spec fn rat_round_v(a: RatV) -> int {
    if a.n >= 0 {
        round_nn(a.n, a.d)
    } else {
        -round_nn(-a.n, a.d)
    }
}

/// The rounded value is a nearest integer: it is within half a unit of
/// the fraction, that is `|a.n - rat_round_v(a) * a.d| <= a.d / 2`,
/// stated multiplied out.
pub proof fn lemma_round_nearest(a: RatV)
    requires
        rat_wf(a),
    ensures
        2 * (a.n - rat_round_v(a) * a.d) <= a.d,
        2 * (rat_round_v(a) * a.d - a.n) <= a.d,
{
    if a.n >= 0 {
        lemma_round_nn_nearest(a.n, a.d);
    } else {
        lemma_round_nn_nearest(-a.n, a.d);
        let x = round_nn(-a.n, a.d);
        assert((-x) * a.d == -(x * a.d)) by (nonlinear_arith);
    }
}

/// The nonnegative rounding helper is within half a unit.
#[verifier::rlimit(20)]
proof fn lemma_round_nn_nearest(n: int, d: int)
    requires
        n >= 0,
        d > 0,
    ensures
        2 * (n - round_nn(n, d) * d) <= d,
        2 * (round_nn(n, d) * d - n) <= d,
{
    vstd::arithmetic::div_mod::lemma_fundamental_div_mod(n, d);
    let q = n / d;
    let r = n % d;
    assert(n == d * q + r);
    assert(q * d == d * q) by (nonlinear_arith);
    assert(0 <= r < d) by {
        vstd::arithmetic::div_mod::lemma_mod_bound(n, d);
    }
    if 2 * r >= d {
        assert(round_nn(n, d) == q + 1);
        assert((q + 1) * d == q * d + d) by (nonlinear_arith);
        assert(2 * (n - (q + 1) * d) == 2 * r - 2 * d);
        assert(2 * ((q + 1) * d - n) == 2 * d - 2 * r);
    } else {
        assert(round_nn(n, d) == q);
        assert(2 * (n - q * d) == 2 * r);
        assert(2 * (q * d - n) == -(2 * r));
    }
}

/// The pair `n / d` with the sign of `d` moved into the numerator.
pub open spec fn rat_signed(n: int, d: int) -> RatV {
    if d > 0 {
        RatV { n: n, d: d }
    } else {
        RatV { n: -n, d: -d }
    }
}

/// An exact rational: an unreduced fraction with a positive denominator.
#[derive(Debug)]
pub struct Rat {
    num: num_bigint::BigInt,
    den: num_bigint::BigInt,
}

impl View for Rat {
    type V = RatV;

    closed spec fn view(&self) -> RatV {
        RatV { n: int_value(self.num), d: int_value(self.den) }
    }
}

impl Rat {
    pub open spec fn wf(&self) -> bool {
        rat_wf(self@)
    }

    /// The fraction `v / 1`.
    pub fn from_i64(v: i64) -> (r: Rat)
        ensures
            r@ == rat_int(v as int),
            r.wf(),
    {
        Rat { num: int_from_i64(v), den: int_from_i64(1) }
    }

    /// The fraction `v / 1` over a bignum.
    pub fn from_int(v: &num_bigint::BigInt) -> (r: Rat)
        ensures
            r@ == rat_int(int_value(*v)),
            r.wf(),
    {
        Rat { num: int_clone(v), den: int_from_i64(1) }
    }

    /// The fraction `n / d`; the sign of `d` is moved into the numerator.
    pub fn new(n: i64, d: i64) -> (r: Rat)
        requires
            d != 0,
        ensures
            r.wf(),
            r@ == rat_signed(n as int, d as int),
            rat_eq_v(r@, RatV { n: n as int, d: d as int }),
    {
        let num = int_from_i64(n);
        let den = int_from_i64(d);
        let zero = int_from_i64(0);
        if int_lt(&den, &zero) {
            let r = Rat { num: int_neg(&num), den: int_neg(&den) };
            proof {
                assert(rat_eq_v(r@, RatV { n: n as int, d: d as int })) by (nonlinear_arith)
                    requires
                        r@.n == -(n as int),
                        r@.d == -(d as int),
                ;
            }
            r
        } else {
            Rat { num, den }
        }
    }

    /// The numerator is nonzero (so the fraction is).
    pub fn nonzero(&self) -> (r: bool)
        ensures
            r == (self@.n != 0),
    {
        let zero = int_from_i64(0);
        !crate::arith::int_eq(&self.num, &zero)
    }

    /// Exact sum.
    pub fn add(&self, o: &Rat) -> (r: Rat)
        requires
            self.wf(),
            o.wf(),
        ensures
            r@ == rat_add_v(self@, o@),
            r.wf(),
    {
        let n = int_add(&int_mul(&self.num, &o.den), &int_mul(&o.num, &self.den));
        let d = int_mul(&self.den, &o.den);
        proof {
            assert(int_value(d) > 0) by (nonlinear_arith)
                requires
                    int_value(d) == self@.d * o@.d,
                    self@.d > 0,
                    o@.d > 0,
            ;
        }
        Rat { num: n, den: d }
    }

    /// Exact difference.
    pub fn sub(&self, o: &Rat) -> (r: Rat)
        requires
            self.wf(),
            o.wf(),
        ensures
            r@ == rat_sub_v(self@, o@),
            r.wf(),
    {
        let n = int_sub(&int_mul(&self.num, &o.den), &int_mul(&o.num, &self.den));
        let d = int_mul(&self.den, &o.den);
        proof {
            assert(int_value(d) > 0) by (nonlinear_arith)
                requires
                    int_value(d) == self@.d * o@.d,
                    self@.d > 0,
                    o@.d > 0,
            ;
        }
        Rat { num: n, den: d }
    }

    /// Exact product.
    pub fn mul(&self, o: &Rat) -> (r: Rat)
        requires
            self.wf(),
            o.wf(),
        ensures
            r@ == rat_mul_v(self@, o@),
            r.wf(),
    {
        let n = int_mul(&self.num, &o.num);
        let d = int_mul(&self.den, &o.den);
        proof {
            assert(int_value(d) > 0) by (nonlinear_arith)
                requires
                    int_value(d) == self@.d * o@.d,
                    self@.d > 0,
                    o@.d > 0,
            ;
        }
        Rat { num: n, den: d }
    }

    /// Exact square.
    pub fn square(&self) -> (r: Rat)
        requires
            self.wf(),
        ensures
            r@ == rat_mul_v(self@, self@),
            r.wf(),
    {
        self.mul(self)
    }

    /// Exact quotient; the divisor must be nonzero.
    pub fn div(&self, o: &Rat) -> (r: Rat)
        requires
            self.wf(),
            o.wf(),
            o@.n != 0,
        ensures
            r@ == rat_div_v(self@, o@),
            r.wf(),
    {
        let zero = int_from_i64(0);
        if int_lt(&o.num, &zero) {
            let n = int_neg(&int_mul(&self.num, &o.den));
            let d = int_neg(&int_mul(&self.den, &o.num));
            proof {
                assert(int_value(d) > 0) by (nonlinear_arith)
                    requires
                        int_value(d) == -(self@.d * o@.n),
                        self@.d > 0,
                        o@.n < 0,
                ;
            }
            Rat { num: n, den: d }
        } else {
            let n = int_mul(&self.num, &o.den);
            let d = int_mul(&self.den, &o.num);
            proof {
                assert(int_value(d) > 0) by (nonlinear_arith)
                    requires
                        int_value(d) == self@.d * o@.n,
                        self@.d > 0,
                        o@.n > 0,
                ;
            }
            Rat { num: n, den: d }
        }
    }

    /// `self <= o`, by cross-multiplication.
    pub fn le(&self, o: &Rat) -> (r: bool)
        requires
            self.wf(),
            o.wf(),
        ensures
            r == rat_le_v(self@, o@),
    {
        int_le(&int_mul(&self.num, &o.den), &int_mul(&o.num, &self.den))
    }

    /// `self < o`, by cross-multiplication.
    pub fn lt(&self, o: &Rat) -> (r: bool)
        requires
            self.wf(),
            o.wf(),
        ensures
            r == rat_lt_v(self@, o@),
    {
        int_lt(&int_mul(&self.num, &o.den), &int_mul(&o.num, &self.den))
    }

    /// `|self| <= o`.
    pub fn abs_le(&self, o: &Rat) -> (r: bool)
        requires
            self.wf(),
            o.wf(),
        ensures
            r == rat_abs_le_v(self@, o@),
    {
        let lo = self.le(o);
        let neg = Rat { num: int_neg(&self.num), den: int_clone(&self.den) };
        let hi = neg.le(o);
        lo && hi
    }

    /// The numerator is strictly positive (so the fraction is).
    pub fn pos(&self) -> (r: bool)
        ensures
            r == (self@.n > 0),
    {
        let zero = int_from_i64(0);
        int_lt(&zero, &self.num)
    }

    /// Nearest integer, halves rounded away from zero.
    pub fn round(&self) -> (r: num_bigint::BigInt)
        requires
            self.wf(),
        ensures
            int_value(r) == rat_round_v(self@),
    {
        let zero = int_from_i64(0);
        if int_le(&zero, &self.num) {
            round_nn_exec(&self.num, &self.den)
        } else {
            let m = int_neg(&self.num);
            int_neg(&round_nn_exec(&m, &self.den))
        }
    }
}

/// Nearest integer to `n / d` for nonnegative `n` and positive `d`,
/// halves rounded up.
fn round_nn_exec(n: &num_bigint::BigInt, d: &num_bigint::BigInt) -> (r: num_bigint::BigInt)
    requires
        int_value(*n) >= 0,
        int_value(*d) > 0,
    ensures
        int_value(r) == round_nn(int_value(*n), int_value(*d)),
{
    let q = int_div(n, d);
    let rem = int_rem(n, d);
    let two = int_from_i64(2);
    let twice = int_mul(&two, &rem);
    if int_le(d, &twice) {
        let one = int_from_i64(1);
        int_add(&q, &one)
    } else {
        q
    }
}

} // verus!
