//! Square scratch matrices for the reduction kernel, stored flat in
//! row-major order: the entry at row `i`, column `j` sits at `i * d + j`.

use vstd::prelude::*;
use vstd::pervasive::VecAdditionalExecFns;
use crate::arith::{int_value, int_from_i64};
use crate::rational::{Rat, RatV};

verus! {

/// Two distinct positions in a `d` by `d` grid have distinct flat indices.
proof fn lemma_flat_index(d: int, i: int, j: int, a: int, b: int)
    by (nonlinear_arith)
    requires
        0 <= i < d,
        0 <= j < d,
        0 <= a < d,
        0 <= b < d,
        a * d + b == i * d + j,
    ensures
        a == i && b == j,
{
}

/// A flat position is within a `d` by `d` grid.
proof fn lemma_flat_bound(d: int, i: int, j: int)
    by (nonlinear_arith)
    requires
        0 <= i < d,
        0 <= j < d,
    ensures
        0 <= i * d + j < d * d,
{
}

/// A square matrix of arbitrary-precision integers.
pub struct IntMatrix {
    d: usize,
    entries: Vec<num_bigint::BigInt>,
}

impl IntMatrix {
    pub closed spec fn wf(&self) -> bool {
        self.entries@.len() == self.d * self.d
    }

    pub closed spec fn dim(&self) -> int {
        self.d as int
    }

    /// The integer at row `i`, column `j`.
    pub closed spec fn at(&self, i: int, j: int) -> int {
        int_value(self.entries@[i * self.d + j])
    }

    /// A `d` by `d` matrix of zeros.
    pub fn init(d: usize) -> (r: IntMatrix)
        ensures
            r.wf(),
            r.dim() == d,
            forall|i: int, j: int| 0 <= i < d && 0 <= j < d ==> r.at(i, j) == 0,
    {
        let mut entries: Vec<num_bigint::BigInt> = Vec::new();
        let mut i: usize = 0;
        while i < d
            invariant
                i <= d,
                entries@.len() == i * d,
                forall|k: int| 0 <= k < i * d ==> int_value(entries@[k]) == 0,
            decreases d - i,
        {
            let mut j: usize = 0;
            while j < d
                invariant
                    j <= d,
                    i < d,
                    entries@.len() == i * d + j,
                    forall|k: int| 0 <= k < i * d + j ==> int_value(entries@[k]) == 0,
                decreases d - j,
            {
                entries.push(int_from_i64(0));
                j += 1;
            }
            proof {
                assert((i + 1) * d == i * d + d) by (nonlinear_arith);
            }
            i += 1;
        }
        let m = IntMatrix { d, entries };
        proof {
            assert forall|a: int, b: int| 0 <= a < d && 0 <= b < d implies m.at(a, b) == 0 by {
                lemma_flat_bound(d as int, a, b);
            }
        }
        m
    }

    /// A borrow of the entry at row `i`, column `j`.
    pub fn get(&self, i: usize, j: usize) -> (r: &num_bigint::BigInt)
        requires
            self.wf(),
            i < self.dim(),
            j < self.dim(),
        ensures
            int_value(*r) == self.at(i as int, j as int),
    {
        let len = self.entries.len();
        proof {
            lemma_flat_bound(self.d as int, i as int, j as int);
        }
        &self.entries[i * self.d + j]
    }

    /// Replaces the entry at row `i`, column `j`.
    pub fn set(&mut self, i: usize, j: usize, value: num_bigint::BigInt)
        requires
            old(self).wf(),
            i < old(self).dim(),
            j < old(self).dim(),
        ensures
            final(self).wf(),
            final(self).dim() == old(self).dim(),
            final(self).at(i as int, j as int) == int_value(value),
            forall|a: int, b: int|
                0 <= a < old(self).dim() && 0 <= b < old(self).dim() && !(a == i && b == j)
                    ==> final(self).at(a, b) == old(self).at(a, b),
    {
        let len = self.entries.len();
        proof {
            lemma_flat_bound(self.d as int, i as int, j as int);
        }
        self.entries.set(i * self.d + j, value);
        proof {
            assert forall|a: int, b: int|
                0 <= a < old(self).dim() && 0 <= b < old(self).dim() && !(a == i && b == j)
                    implies final(self).at(a, b) == old(self).at(a, b) by {
                lemma_flat_bound(self.d as int, a, b);
                if a * self.d + b == i * self.d + j {
                    lemma_flat_index(self.d as int, i as int, j as int, a, b);
                }
            }
        }
    }
}

/// A square matrix of exact rationals.
pub struct RatMatrix {
    d: usize,
    entries: Vec<Rat>,
}

impl RatMatrix {
    /// Well formed: right size, and every entry a well-formed fraction.
    pub closed spec fn wf(&self) -> bool {
        &&& self.entries@.len() == self.d * self.d
        &&& forall|k: int| 0 <= k < self.entries@.len() ==> (#[trigger] self.entries@[k])@.d > 0
    }

    pub closed spec fn dim(&self) -> int {
        self.d as int
    }

    /// The fraction at row `i`, column `j`.
    pub closed spec fn at(&self, i: int, j: int) -> RatV {
        self.entries@[i * self.d + j]@
    }

    /// Every entry of a well-formed matrix is a well-formed fraction.
    pub proof fn lemma_at_wf(&self, i: int, j: int)
        requires
            self.wf(),
            0 <= i < self.dim(),
            0 <= j < self.dim(),
        ensures
            self.at(i, j).d > 0,
    {
        lemma_flat_bound(self.d as int, i, j);
    }

    /// A `d` by `d` matrix of zeros.
    pub fn init(d: usize) -> (r: RatMatrix)
        ensures
            r.wf(),
            r.dim() == d,
            forall|i: int, j: int|
                0 <= i < d && 0 <= j < d ==> r.at(i, j) == crate::rational::rat_int(0),
    {
        let mut entries: Vec<Rat> = Vec::new();
        let mut i: usize = 0;
        while i < d
            invariant
                i <= d,
                entries@.len() == i * d,
                forall|k: int|
                    0 <= k < i * d ==> (#[trigger] entries@[k])@ == crate::rational::rat_int(0),
            decreases d - i,
        {
            let mut j: usize = 0;
            while j < d
                invariant
                    j <= d,
                    i < d,
                    entries@.len() == i * d + j,
                    forall|k: int|
                        0 <= k < i * d + j ==> (#[trigger] entries@[k])@ == crate::rational::rat_int(
                            0,
                        ),
                decreases d - j,
            {
                entries.push(Rat::from_i64(0));
                j += 1;
            }
            proof {
                assert((i + 1) * d == i * d + d) by (nonlinear_arith);
            }
            i += 1;
        }
        let m = RatMatrix { d, entries };
        proof {
            assert forall|a: int, b: int| 0 <= a < d && 0 <= b < d implies m.at(a, b)
                == crate::rational::rat_int(0) by {
                lemma_flat_bound(d as int, a, b);
            }
        }
        m
    }

    /// A borrow of the entry at row `i`, column `j`.
    pub fn get(&self, i: usize, j: usize) -> (r: &Rat)
        requires
            self.wf(),
            i < self.dim(),
            j < self.dim(),
        ensures
            r@ == self.at(i as int, j as int),
            r.wf(),
    {
        let len = self.entries.len();
        proof {
            lemma_flat_bound(self.d as int, i as int, j as int);
        }
        &self.entries[i * self.d + j]
    }

    /// Replaces the entry at row `i`, column `j`.
    pub fn set(&mut self, i: usize, j: usize, value: Rat)
        requires
            old(self).wf(),
            i < old(self).dim(),
            j < old(self).dim(),
            value.wf(),
        ensures
            final(self).wf(),
            final(self).dim() == old(self).dim(),
            final(self).at(i as int, j as int) == value@,
            forall|a: int, b: int|
                0 <= a < old(self).dim() && 0 <= b < old(self).dim() && !(a == i && b == j)
                    ==> final(self).at(a, b) == old(self).at(a, b),
    {
        let len = self.entries.len();
        proof {
            lemma_flat_bound(self.d as int, i as int, j as int);
        }
        self.entries.set(i * self.d + j, value);
        proof {
            assert forall|a: int, b: int|
                0 <= a < old(self).dim() && 0 <= b < old(self).dim() && !(a == i && b == j)
                    implies final(self).at(a, b) == old(self).at(a, b) by {
                lemma_flat_bound(self.d as int, a, b);
                if a * self.d + b == i * self.d + j {
                    lemma_flat_index(self.d as int, i as int, j as int, a, b);
                }
            }
        }
    }
}

} // verus!
