//! Row vectors with arbitrary-precision integer coefficients.

use vstd::prelude::*;
use crate::arith::{int_value, int_from_i64, int_clone, int_add, int_sub, int_mul};

verus! {

/// Exact dot product of two equally long integer sequences.
pub open spec fn dot_int(u: Seq<int>, v: Seq<int>) -> int
    decreases u.len(),
{
    if u.len() == 0 {
        0
    } else {
        dot_int(u.drop_last(), v.drop_last()) + u.last() * v.last()
    }
}

/// An element of a space of integer row vectors, seen as a sequence of
/// mathematical integers.
pub trait Vector: Sized {
    /// The sequence of coefficients the vector stands for.
    spec fn model(&self) -> Seq<int>;

    /// The vector's dimension.
    fn dimension(&self) -> (r: usize)
        ensures
            r == self.model().len(),
    ;

    /// Componentwise sum.
    fn add(&self, other: &Self) -> (r: Self)
        requires
            self.model().len() == other.model().len(),
        ensures
            r.model().len() == self.model().len(),
            forall|i: int|
                0 <= i < self.model().len() ==> r.model()[i] == self.model()[i]
                    + other.model()[i],
    ;

    /// Componentwise difference.
    fn sub(&self, other: &Self) -> (r: Self)
        requires
            self.model().len() == other.model().len(),
        ensures
            r.model().len() == self.model().len(),
            forall|i: int|
                0 <= i < self.model().len() ==> r.model()[i] == self.model()[i]
                    - other.model()[i],
    ;

    /// The zero vector of the given dimension.
    fn init(dimension: usize) -> (r: Self)
        ensures
            r.model().len() == dimension,
            forall|i: int| 0 <= i < dimension ==> r.model()[i] == 0,
    ;

    /// The standard basis vector with a one at `position`.
    fn basis_vector(&self, position: usize) -> (r: Self)
        requires
            position < self.model().len(),
        ensures
            r.model().len() == self.model().len(),
            r.model()[position as int] == 1,
            forall|i: int|
                0 <= i < self.model().len() && i != position ==> r.model()[i] == 0,
    ;
}

/// A dot product with scalar result type `T`.
pub trait Dot<T>: Vector {
    fn dot(&self, other: &Self) -> T
        requires
            self.model().len() == other.model().len(),
    ;
}

/// A vector of arbitrary-precision integers.
#[derive(Debug)]
pub struct BigVector {
    coefficients: Vec<num_bigint::BigInt>,
}

impl View for BigVector {
    type V = Seq<int>;

    closed spec fn view(&self) -> Seq<int> {
        self.coefficients@.map_values(|x: num_bigint::BigInt| int_value(x))
    }
}

impl BigVector {
    /// A copy of the coefficient at `position`.
    pub fn get_coefficient(&self, position: usize) -> (r: num_bigint::BigInt)
        requires
            position < self@.len(),
        ensures
            int_value(r) == self@[position as int],
    {
        int_clone(&self.coefficients[position])
    }

    /// Replaces the coefficient at `position`.
    pub fn set_coefficient(&mut self, position: usize, value: num_bigint::BigInt)
        requires
            position < old(self)@.len(),
        ensures
            final(self)@ == old(self)@.update(position as int, int_value(value)),
    {
        self.coefficients.set(position, value);
        proof {
            assert(final(self)@ =~= old(self)@.update(position as int, int_value(value)));
        }
    }

    /// Wraps a list of coefficients as a vector.
    pub fn from_vector(coefficients: Vec<num_bigint::BigInt>) -> (r: BigVector)
        ensures
            r@ == coefficients@.map_values(|x: num_bigint::BigInt| int_value(x)),
    {
        BigVector { coefficients }
    }

    /// Componentwise product with the scalar `other`.
    pub fn mulf(&self, other: num_bigint::BigInt) -> (r: BigVector)
        ensures
            r@.len() == self@.len(),
            forall|i: int| 0 <= i < self@.len() ==> r@[i] == self@[i] * int_value(other),
    {
        let n = self.coefficients.len();
        let mut out: Vec<num_bigint::BigInt> = Vec::new();
        let mut i: usize = 0;
        while i < n
            invariant
                i <= n,
                n == self@.len(),
                out@.len() == i,
                forall|j: int| 0 <= j < i ==> int_value(out@[j]) == self@[j] * int_value(other),
            decreases n - i,
        {
            out.push(int_mul(&self.coefficients[i], &other));
            i += 1;
        }
        BigVector { coefficients: out }
    }
}

impl Vector for BigVector {
    open spec fn model(&self) -> Seq<int> {
        self@
    }

    fn dimension(&self) -> (r: usize) {
        self.coefficients.len()
    }

    fn add(&self, other: &Self) -> (r: Self) {
        let n = self.coefficients.len();
        let mut out: Vec<num_bigint::BigInt> = Vec::new();
        let mut i: usize = 0;
        while i < n
            invariant
                i <= n,
                n == self@.len(),
                n == other@.len(),
                out@.len() == i,
                forall|j: int| 0 <= j < i ==> int_value(out@[j]) == self@[j] + other@[j],
            decreases n - i,
        {
            out.push(int_add(&self.coefficients[i], &other.coefficients[i]));
            i += 1;
        }
        BigVector { coefficients: out }
    }

    fn sub(&self, other: &Self) -> (r: Self) {
        let n = self.coefficients.len();
        let mut out: Vec<num_bigint::BigInt> = Vec::new();
        let mut i: usize = 0;
        while i < n
            invariant
                i <= n,
                n == self@.len(),
                n == other@.len(),
                out@.len() == i,
                forall|j: int| 0 <= j < i ==> int_value(out@[j]) == self@[j] - other@[j],
            decreases n - i,
        {
            out.push(int_sub(&self.coefficients[i], &other.coefficients[i]));
            i += 1;
        }
        BigVector { coefficients: out }
    }

    fn init(dimension: usize) -> (r: Self) {
        let mut out: Vec<num_bigint::BigInt> = Vec::new();
        let mut i: usize = 0;
        while i < dimension
            invariant
                i <= dimension,
                out@.len() == i,
                forall|j: int| 0 <= j < i ==> int_value(out@[j]) == 0,
            decreases dimension - i,
        {
            out.push(int_from_i64(0));
            i += 1;
        }
        BigVector { coefficients: out }
    }

    fn basis_vector(&self, position: usize) -> (r: Self) {
        let n = self.coefficients.len();
        let mut out: Vec<num_bigint::BigInt> = Vec::new();
        let mut i: usize = 0;
        while i < n
            invariant
                i <= n,
                position < n,
                out@.len() == i,
                forall|j: int|
                    0 <= j < i ==> int_value(out@[j]) == (if j == position {
                        1int
                    } else {
                        0int
                    }),
            decreases n - i,
        {
            if i == position {
                out.push(int_from_i64(1));
            } else {
                out.push(int_from_i64(0));
            }
            i += 1;
        }
        BigVector { coefficients: out }
    }
}

impl BigVector {
    /// Exact dot product with `other`.
    pub fn dot(&self, other: &Self) -> (r: num_bigint::BigInt)
        requires
            self@.len() == other@.len(),
        ensures
            int_value(r) == dot_int(self@, other@),
    {
        let n = self.coefficients.len();
        let mut acc = int_from_i64(0);
        let mut i: usize = 0;
        while i < n
            invariant
                i <= n,
                n == self@.len(),
                n == other@.len(),
                int_value(acc) == dot_int(self@.take(i as int), other@.take(i as int)),
            decreases n - i,
        {
            let term = int_mul(&self.coefficients[i], &other.coefficients[i]);
            acc = int_add(&acc, &term);
            proof {
                assert(self@.take(i + 1).drop_last() =~= self@.take(i as int));
                assert(other@.take(i + 1).drop_last() =~= other@.take(i as int));
                assert(self@.take(i + 1).last() == self@[i as int]);
                assert(other@.take(i + 1).last() == other@[i as int]);
            }
            i += 1;
        }
        proof {
            assert(self@.take(n as int) =~= self@);
            assert(other@.take(n as int) =~= other@);
        }
        acc
    }
}

impl Dot<num_bigint::BigInt> for BigVector {
    fn dot(&self, other: &Self) -> num_bigint::BigInt {
        BigVector::dot(self, other)
    }
}

} // verus!
