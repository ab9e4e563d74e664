//! The L2 lattice reduction kernel over arbitrary-precision arithmetic.

use vstd::prelude::*;
use vstd::pervasive::VecAdditionalExecFns;
use crate::arith::int_value;
use crate::rational::{Rat, RatV, rat_int, rat_signed, rat_lt_v, rat_add_v, rat_sub_v, rat_mul_v,
    rat_div_v, rat_abs_le_v};
use crate::vector::{BigVector, Vector};
use crate::matrix::{IntMatrix, RatMatrix};
use crate::lattice::{same_dims, gram, gs_sum, gs_r, gs_mu, gs_pos, size_reduced, lovasz,
    lovasz_at, is_reduced,
    swap_rows, swap_step, shear_vec, shear_step, unimodular_reach, lemma_reach_refl,
    lemma_reach_step, lemma_reach_trans, lemma_reach_preserves_lattice, lemma_dot_comm};

verus! {

/// Why a reduction call failed.
#[derive(Clone, Copy, Debug, PartialEq, Eq, Structural)]
pub enum LatticeError {
    /// `delta` is outside `(1/4, 1)`.
    BadDelta,
    /// `eta` is outside `(1/2, sqrt(delta))`.
    BadEta,
    /// The basis has no rows.
    EmptyBasis,
    /// Two rows have different dimensions.
    DimensionMismatch,
    /// A Gram-Schmidt squared norm vanished: the rows are linearly
    /// dependent.
    Dependent,
    /// The iteration budget was spent before the reduction settled.
    Exhausted,
}

/// A successful reduction's summary.
#[derive(Clone, Copy, Debug, PartialEq, Eq, Structural)]
pub struct Reduction {
    /// How many row exchanges the kernel performed.
    pub swaps: usize,
}

/// The rows of a basis, as sequences of mathematical integers.
pub open spec fn rows_view(s: Seq<BigVector>) -> Seq<Seq<int>> {
    s.map_values(|v: BigVector| v@)
}

/// The stored lower triangle holds the Gram matrix of the rows:
/// `g[i][j] == <b_i, b_j>` for `j <= i < d`.
pub open spec fn gram_ok(g: IntMatrix, b: Seq<Seq<int>>, d: int) -> bool {
    forall|i: int, j: int| 0 <= j <= i < d ==> #[trigger] g.at(i, j) == gram(b, i, j)
}

/// `1/4 < delta < 1`.
pub open spec fn delta_ok(delta: RatV) -> bool {
    rat_lt_v(rat_signed(1, 4), delta) && rat_lt_v(delta, rat_int(1))
}

/// `1/2 < eta` and `eta^2 < delta`.
pub open spec fn eta_ok(eta: RatV, delta: RatV) -> bool {
    rat_lt_v(rat_signed(1, 2), eta) && rat_lt_v(rat_mul_v(eta, eta), delta)
}

/// Exchanges rows `k - 1` and `k`: one unimodular operation.
fn swap_adjacent(basis: &mut Vec<BigVector>, k: usize)
    requires
        1 <= k < old(basis)@.len(),
    ensures
        final(basis)@.len() == old(basis)@.len(),
        rows_view(final(basis)@) == swap_rows(rows_view(old(basis)@), k - 1, k as int),
        swap_step(rows_view(old(basis)@), rows_view(final(basis)@)),
{
    let row = basis.remove(k);
    basis.insert(k - 1, row);
    proof {
        assert(rows_view(basis@) =~= swap_rows(rows_view(old(basis)@), k - 1, k as int));
        assert(swap_step(rows_view(old(basis)@), rows_view(basis@)));
    }
}

/// Recomputes the Gram entries involving row `k`, honouring the
/// lower-triangle convention: the dot of rows `k` and `j` is stored at
/// `(k, j)` for `j < k` and at `(j, k)` otherwise.
fn refresh_gram_row(k: usize, d: usize, basis: &Vec<BigVector>, gram_m: &mut IntMatrix)
    requires
        k < d,
        basis@.len() == d,
        same_dims(rows_view(basis@)),
        old(gram_m).wf(),
        old(gram_m).dim() == d,
    ensures
        final(gram_m).wf(),
        final(gram_m).dim() == d,
        forall|a: int, b: int|
            0 <= a < d && 0 <= b < d && a != k && b != k ==> #[trigger] final(gram_m).at(a, b)
                == old(gram_m).at(a, b),
        forall|j: int|
            0 <= j < k ==> #[trigger] final(gram_m).at(k as int, j) == gram(
                rows_view(basis@),
                k as int,
                j,
            ),
        forall|j: int|
            k <= j < d ==> #[trigger] final(gram_m).at(j, k as int) == gram(
                rows_view(basis@),
                j,
                k as int,
            ),
{
    let mut j: usize = 0;
    while j < d
        invariant
            j <= d,
            k < d,
            basis@.len() == d,
            same_dims(rows_view(basis@)),
            gram_m.wf(),
            gram_m.dim() == d,
            forall|a: int, b: int|
                0 <= a < d && 0 <= b < d && a != k && b != k ==> #[trigger] gram_m.at(a, b)
                    == old(gram_m).at(a, b),
            forall|j2: int|
                0 <= j2 < j && j2 < k ==> #[trigger] gram_m.at(k as int, j2) == gram(
                    rows_view(basis@),
                    k as int,
                    j2,
                ),
            forall|j2: int|
                k <= j2 < j ==> #[trigger] gram_m.at(j2, k as int) == gram(
                    rows_view(basis@),
                    j2,
                    k as int,
                ),
        decreases d - j,
    {
        proof {
            assert(rows_view(basis@)[k as int] == basis@[k as int]@);
            assert(rows_view(basis@)[j as int] == basis@[j as int]@);
            assert(rows_view(basis@)[k as int].len() == rows_view(basis@)[j as int].len());
        }
        let v = basis[k].dot(&basis[j]);
        if j < k {
            gram_m.set(k, j, v);
        } else {
            proof {
                lemma_dot_comm(rows_view(basis@)[k as int], rows_view(basis@)[j as int]);
            }
            gram_m.set(j, k, v);
        }
        j += 1;
    }
}

/// The stored partial sum `sum_{t' < t} mu[i][t'] * r[k][t']` over the
/// scratch matrices, in the kernel's accumulation order.
pub open spec fn stored_sum(mu_m: RatMatrix, r_m: RatMatrix, k: int, i: int, t: int) -> RatV
    decreases t,
{
    if t <= 0 {
        rat_int(0)
    } else {
        rat_add_v(
            stored_sum(mu_m, r_m, k, i, t - 1),
            rat_mul_v(mu_m.at(i, t - 1), r_m.at(k, t - 1)),
        )
    }
}

/// The stored sum depends only on the entries it reads: row `i` of
/// `mu` and row `k` of `r`, before column `t`.
proof fn lemma_stored_sum_agree(
    mu1: RatMatrix,
    mu2: RatMatrix,
    r1: RatMatrix,
    r2: RatMatrix,
    k: int,
    i: int,
    t: int,
)
    requires
        forall|t2: int| 0 <= t2 < t ==> #[trigger] mu1.at(i, t2) == mu2.at(i, t2),
        forall|t2: int| 0 <= t2 < t ==> #[trigger] r1.at(k, t2) == r2.at(k, t2),
    ensures
        stored_sum(mu1, r1, k, i, t) == stored_sum(mu2, r2, k, i, t),
    decreases t,
{
    if t > 0 {
        lemma_stored_sum_agree(mu1, mu2, r1, r2, k, i, t - 1);
    }
}

/// Performs the `eta`-size-reduction of `basis[k]`: refreshes row `k`
/// of `r` and `mu` from the Gram matrix, and while some `|mu[k][j]|`
/// exceeds `eta`, subtracts rounded multiples of earlier rows from row
/// `k` — each subtraction a unimodular operation — then refreshes and
/// re-checks, the repeat serving as the fixed-point guard.
///
/// Both `basis` and `gram_m` are updated by this operation, and only
/// in row `k` (for `gram_m`, row and column `k`); the Gram matrix
/// keeps holding the dot products of the rows.  On success, every
/// stored `|mu[k][j]|` with `j < k` is at most `eta`, and row `k` of
/// the stored `r` and `mu` satisfies the defining identities
/// `r[k][i] = G[k][i] - sum_{t<i} mu[i][t] * r[k][t]` and
/// `mu[k][i] = r[k][i] / r[i][i]`.  A dependence failure always points
/// at a stored diagonal entry whose numerator vanished.
#[verifier::loop_isolation(false)]
fn size_reduce(
    k: usize,
    d: usize,
    basis: &mut Vec<BigVector>,
    gram_m: &mut IntMatrix,
    mu_m: &mut RatMatrix,
    r_m: &mut RatMatrix,
    eta: &Rat,
) -> (res: Result<(), LatticeError>)
    requires
        1 <= k < d,
        old(basis)@.len() == d,
        same_dims(rows_view(old(basis)@)),
        old(gram_m).wf(),
        old(gram_m).dim() == d,
        old(mu_m).wf(),
        old(mu_m).dim() == d,
        old(r_m).wf(),
        old(r_m).dim() == d,
        gram_ok(*old(gram_m), rows_view(old(basis)@), d as int),
        eta.wf(),
    ensures
        final(basis)@.len() == d,
        same_dims(rows_view(final(basis)@)),
        final(gram_m).wf(),
        final(gram_m).dim() == d,
        gram_ok(*final(gram_m), rows_view(final(basis)@), d as int),
        final(mu_m).wf(),
        final(mu_m).dim() == d,
        final(r_m).wf(),
        final(r_m).dim() == d,
        unimodular_reach(rows_view(old(basis)@), rows_view(final(basis)@)),
        forall|a: int|
            0 <= a < d && a != k ==> #[trigger] rows_view(final(basis)@)[a] == rows_view(
                old(basis)@,
            )[a],
        forall|a: int, b: int|
            0 <= a < d && 0 <= b < d && a != k ==> #[trigger] final(mu_m).at(a, b) == old(
                mu_m,
            ).at(a, b),
        forall|a: int, b: int|
            0 <= a < d && 0 <= b < d && a != k ==> #[trigger] final(r_m).at(a, b) == old(r_m).at(
                a,
                b,
            ),
        forall|a: int, b: int|
            0 <= a < d && 0 <= b < d && a != k && b != k ==> #[trigger] final(gram_m).at(a, b)
                == old(gram_m).at(a, b),
        res is Ok ==> forall|j: int|
            0 <= j < k ==> rat_abs_le_v(#[trigger] final(mu_m).at(k as int, j), eta@),
        res is Ok ==> forall|i: int|
            0 <= i <= k ==> #[trigger] final(r_m).at(k as int, i) == rat_sub_v(
                rat_int(final(gram_m).at(k as int, i)),
                stored_sum(*final(mu_m), *final(r_m), k as int, i, i),
            ),
        res is Ok ==> forall|i: int|
            0 <= i < k ==> #[trigger] final(mu_m).at(k as int, i) == rat_div_v(
                final(r_m).at(k as int, i),
                final(r_m).at(i, i),
            ),
        res is Ok ==> forall|i: int| 0 <= i < k ==> (#[trigger] final(r_m).at(i, i)).n != 0,
        res == Err::<(), LatticeError>(LatticeError::Dependent) ==> exists|i: int|
            0 <= i <= k && (#[trigger] final(r_m).at(i, i)).n == 0,
        res is Err ==> res == Err::<(), LatticeError>(LatticeError::Dependent) || res == Err::<
            (),
            LatticeError,
        >(LatticeError::Exhausted),
{
    let mut fuel: u64 = u64::MAX;
    proof {
        lemma_reach_refl(rows_view(basis@));
    }
    loop
        invariant
            basis@.len() == d,
            same_dims(rows_view(basis@)),
            gram_m.wf(),
            gram_m.dim() == d,
            mu_m.wf(),
            mu_m.dim() == d,
            r_m.wf(),
            r_m.dim() == d,
            gram_ok(*gram_m, rows_view(basis@), d as int),
            unimodular_reach(rows_view(old(basis)@), rows_view(basis@)),
            forall|a: int|
                0 <= a < d && a != k ==> #[trigger] rows_view(basis@)[a] == rows_view(
                    old(basis)@,
                )[a],
            forall|a: int, b: int|
                0 <= a < d && 0 <= b < d && a != k ==> #[trigger] mu_m.at(a, b) == old(mu_m).at(
                    a,
                    b,
                ),
            forall|a: int, b: int|
                0 <= a < d && 0 <= b < d && a != k ==> #[trigger] r_m.at(a, b) == old(r_m).at(a, b),
            forall|a: int, b: int|
                0 <= a < d && 0 <= b < d && a != k && b != k ==> #[trigger] gram_m.at(a, b) == old(
                    gram_m,
                ).at(a, b),
        decreases fuel,
    {
        if fuel == 0 {
            return Err(LatticeError::Exhausted);
        }
        fuel = fuel - 1;

        // Refresh r[k][i] and mu[k][i] from the Gram matrix.
        let mut i: usize = 0;
        while i <= k
            invariant
                i <= k + 1,
                mu_m.wf(),
                mu_m.dim() == d,
                r_m.wf(),
                r_m.dim() == d,
                forall|a: int, b: int|
                    0 <= a < d && 0 <= b < d && a != k ==> #[trigger] mu_m.at(a, b) == old(
                        mu_m,
                    ).at(a, b),
                forall|a: int, b: int|
                    0 <= a < d && 0 <= b < d && a != k ==> #[trigger] r_m.at(a, b) == old(r_m).at(
                        a,
                        b,
                    ),
                forall|i2: int|
                    0 <= i2 < i ==> #[trigger] r_m.at(k as int, i2) == rat_sub_v(
                        rat_int(gram_m.at(k as int, i2)),
                        stored_sum(*mu_m, *r_m, k as int, i2, i2),
                    ),
                forall|i2: int|
                    0 <= i2 < i && i2 < k ==> #[trigger] mu_m.at(k as int, i2) == rat_div_v(
                        r_m.at(k as int, i2),
                        r_m.at(i2, i2),
                    ),
                forall|i2: int| 0 <= i2 < i && i2 < k ==> (#[trigger] r_m.at(i2, i2)).n != 0,
            decreases k + 1 - i,
        {
            let mut acc = Rat::from_i64(0);
            let mut t: usize = 0;
            while t < i
                invariant
                    t <= i,
                    i <= k,
                    acc.wf(),
                    mu_m.wf(),
                    mu_m.dim() == d,
                    r_m.wf(),
                    r_m.dim() == d,
                    acc@ == stored_sum(*mu_m, *r_m, k as int, i as int, t as int),
                decreases i - t,
            {
                let term = mu_m.get(i, t).mul(r_m.get(k, t));
                acc = acc.add(&term);
                t += 1;
            }
            let cell = Rat::from_int(gram_m.get(k, i)).sub(&acc);
            let ghost mu0 = *mu_m;
            let ghost r0 = *r_m;
            if i < k {
                r_m.set(k, i, cell);
                let rii = r_m.get(i, i);
                if !rii.nonzero() {
                    proof {
                        assert(r_m.at(i as int, i as int).n == 0);
                    }
                    return Err(LatticeError::Dependent);
                }
                let q = r_m.get(k, i).div(rii);
                mu_m.set(k, i, q);
                proof {
                    assert forall|i2: int| 0 <= i2 <= i implies #[trigger] r_m.at(k as int, i2)
                        == rat_sub_v(
                        rat_int(gram_m.at(k as int, i2)),
                        stored_sum(*mu_m, *r_m, k as int, i2, i2),
                    ) by {
                        assert forall|t2: int| 0 <= t2 < i2 implies #[trigger] mu_m.at(i2, t2)
                            == mu0.at(i2, t2) by {}
                        assert forall|t2: int| 0 <= t2 < i2 implies #[trigger] r_m.at(
                            k as int,
                            t2,
                        ) == r0.at(k as int, t2) by {}
                        lemma_stored_sum_agree(*mu_m, mu0, *r_m, r0, k as int, i2, i2);
                    }
                }
            } else {
                let vanished = !cell.nonzero();
                r_m.set(k, i, cell);
                if vanished {
                    proof {
                        assert(r_m.at(k as int, k as int).n == 0);
                    }
                    return Err(LatticeError::Dependent);
                }
                proof {
                    assert forall|i2: int| 0 <= i2 <= i implies #[trigger] r_m.at(k as int, i2)
                        == rat_sub_v(
                        rat_int(gram_m.at(k as int, i2)),
                        stored_sum(*mu_m, *r_m, k as int, i2, i2),
                    ) by {
                        assert forall|t2: int| 0 <= t2 < i2 implies #[trigger] mu_m.at(i2, t2)
                            == mu0.at(i2, t2) by {}
                        assert forall|t2: int| 0 <= t2 < i2 implies #[trigger] r_m.at(
                            k as int,
                            t2,
                        ) == r0.at(k as int, t2) by {}
                        lemma_stored_sum_agree(*mu_m, mu0, *r_m, r0, k as int, i2, i2);
                    }
                }
            }
            i += 1;
        }

        // Is some |mu[k][j]| above eta?
        let mut need = false;
        let mut j: usize = 0;
        while j < k
            invariant
                j <= k,
                mu_m.wf(),
                mu_m.dim() == d,
                !need ==> forall|jj: int|
                    0 <= jj < j ==> rat_abs_le_v(#[trigger] mu_m.at(k as int, jj), eta@),
            decreases k - j,
        {
            if !mu_m.get(k, j).abs_le(eta) {
                need = true;
            }
            j += 1;
        }
        if !need {
            return Ok(());
        }

        // Subtract rounded multiples of the earlier rows from row k.
        let mut i2: usize = k;
        while i2 > 0
            invariant
                i2 <= k,
                basis@.len() == d,
                same_dims(rows_view(basis@)),
                gram_m.wf(),
                gram_m.dim() == d,
                mu_m.wf(),
                mu_m.dim() == d,
                r_m.wf(),
                r_m.dim() == d,
                gram_ok(*gram_m, rows_view(basis@), d as int),
                unimodular_reach(rows_view(old(basis)@), rows_view(basis@)),
                forall|a: int|
                    0 <= a < d && a != k ==> #[trigger] rows_view(basis@)[a] == rows_view(
                        old(basis)@,
                    )[a],
                forall|a: int, b: int|
                    0 <= a < d && 0 <= b < d && a != k ==> #[trigger] mu_m.at(a, b) == old(
                        mu_m,
                    ).at(a, b),
                forall|a: int, b: int|
                    0 <= a < d && 0 <= b < d && a != k && b != k ==> #[trigger] gram_m.at(a, b)
                        == old(gram_m).at(a, b),
            decreases i2,
        {
            i2 -= 1;
            let x = mu_m.get(k, i2).round();
            let ghost xv: int = int_value(x);
            let xr = Rat::from_int(&x);
            let scaled = basis[i2].mulf(x);
            proof {
                assert(rows_view(basis@)[k as int] == basis@[k as int]@);
                assert(rows_view(basis@)[i2 as int] == basis@[i2 as int]@);
                assert(rows_view(basis@)[k as int].len() == rows_view(basis@)[i2 as int].len());
            }
            let newrow = basis[k].sub(&scaled);
            let ghost prev = rows_view(basis@);
            basis.set(k, newrow);
            proof {
                assert(rows_view(basis@)[k as int] =~= shear_vec(
                    prev[k as int],
                    prev[i2 as int],
                    xv,
                ));
                assert(rows_view(basis@) =~= prev.update(
                    k as int,
                    shear_vec(prev[k as int], prev[i2 as int], xv),
                ));
                assert(shear_step(prev, rows_view(basis@)));
                lemma_reach_step(rows_view(old(basis)@), prev, rows_view(basis@));
                assert forall|a: int, b: int|
                    0 <= a < d && 0 <= b < d implies #[trigger] rows_view(basis@)[a].len()
                    == #[trigger] rows_view(basis@)[b].len() by {
                    assert(prev[a].len() == prev[b].len());
                    assert(prev[k as int].len() == prev[i2 as int].len());
                }
                assert(same_dims(rows_view(basis@)));
            }
            let ghost gpre = *gram_m;
            refresh_gram_row(k, d, basis, gram_m);
            proof {
                assert forall|a2: int, b2: int| 0 <= b2 <= a2 < d implies #[trigger] gram_m.at(
                    a2,
                    b2,
                ) == gram(rows_view(basis@), a2, b2) by {
                    if a2 != k && b2 != k {
                        assert(gram_m.at(a2, b2) == gpre.at(a2, b2));
                        assert(gpre.at(a2, b2) == gram(prev, a2, b2));
                        assert(rows_view(basis@)[a2] == prev[a2]);
                        assert(rows_view(basis@)[b2] == prev[b2]);
                    }
                }
            }
            let mut j2: usize = 0;
            while j2 < i2
                invariant
                    j2 <= i2,
                    i2 < k,
                    mu_m.wf(),
                    mu_m.dim() == d,
                    forall|a: int, b: int|
                        0 <= a < d && 0 <= b < d && a != k ==> #[trigger] mu_m.at(a, b) == old(
                            mu_m,
                        ).at(a, b),
                decreases i2 - j2,
            {
                let shift = mu_m.get(i2, j2);
                let delta_term = xr.mul(shift);
                let newv = mu_m.get(k, j2).sub(&delta_term);
                mu_m.set(k, j2, newv);
                j2 += 1;
            }
        }
    }
}

/// The outcome of checking a basis against the reduction conditions.
enum CertOutcome {
    /// The basis is (eta, delta)-reduced.
    Reduced,
    /// Some condition still fails.
    NotReduced,
    /// A Gram-Schmidt squared norm is not positive.
    Degenerate,
}

/// Recomputes the exact Gram-Schmidt data of `basis` from scratch and
/// checks the size-reduction and Lovasz conditions against `eta` and
/// `delta`.  A `Reduced` verdict is proved to mean that the basis is
/// (eta, delta)-reduced.
#[verifier::loop_isolation(false)]
fn certify(basis: &Vec<BigVector>, eta: &Rat, delta: &Rat) -> (res: CertOutcome)
    requires
        basis@.len() >= 1,
        same_dims(rows_view(basis@)),
        eta.wf(),
        delta.wf(),
    ensures
        res is Reduced ==> is_reduced(rows_view(basis@), eta@, delta@),
        res is NotReduced ==> !is_reduced(rows_view(basis@), eta@, delta@),
        res is Degenerate ==> !gs_pos(rows_view(basis@), basis@.len() as int),
{
    let ghost bv = rows_view(basis@);
    let d = basis.len();

    // The Gram matrix, lower triangle.
    let mut g = IntMatrix::init(d);
    let mut i: usize = 0;
    while i < d
        invariant
            i <= d,
            g.wf(),
            g.dim() == d,
            forall|a: int, b: int| 0 <= b <= a < i ==> #[trigger] g.at(a, b) == gram(bv, a, b),
        decreases d - i,
    {
        let mut j: usize = 0;
        while j <= i
            invariant
                j <= i + 1,
                i < d,
                g.wf(),
                g.dim() == d,
                forall|a: int, b: int| 0 <= b <= a < i ==> #[trigger] g.at(a, b) == gram(bv, a, b),
                forall|b: int| 0 <= b < j ==> #[trigger] g.at(i as int, b) == gram(bv, i as int, b),
            decreases i + 1 - j,
        {
            proof {
                assert(rows_view(basis@)[i as int] == basis@[i as int]@);
                assert(rows_view(basis@)[j as int] == basis@[j as int]@);
                assert(rows_view(basis@)[i as int].len() == rows_view(basis@)[j as int].len());
            }
            let v = basis[i].dot(&basis[j]);
            g.set(i, j, v);
            j += 1;
        }
        i += 1;
    }

    // The exact Gram-Schmidt quantities, by their defining recurrences.
    let mut r_m = RatMatrix::init(d);
    let mut mu_m = RatMatrix::init(d);
    let mut i2: usize = 0;
    while i2 < d
        invariant
            i2 <= d,
            r_m.wf(),
            r_m.dim() == d,
            mu_m.wf(),
            mu_m.dim() == d,
            forall|a: int, b: int| 0 <= b <= a < i2 ==> #[trigger] r_m.at(a, b) == gs_r(bv, a, b),
            forall|a: int, b: int| 0 <= b < a < i2 ==> #[trigger] mu_m.at(a, b) == gs_mu(bv, a, b),
            forall|t: int| 0 <= t < i2 ==> (#[trigger] gs_r(bv, t, t)).n > 0,
        decreases d - i2,
    {
        let mut j2: usize = 0;
        while j2 <= i2
            invariant
                j2 <= i2 + 1,
                i2 < d,
                r_m.wf(),
                r_m.dim() == d,
                mu_m.wf(),
                mu_m.dim() == d,
                forall|a: int, b: int| 0 <= b <= a < i2 ==> #[trigger] r_m.at(a, b) == gs_r(bv, a, b),
                forall|a: int, b: int| 0 <= b < a < i2 ==> #[trigger] mu_m.at(a, b) == gs_mu(bv, a, b),
                forall|t: int| 0 <= t < i2 ==> (#[trigger] gs_r(bv, t, t)).n > 0,
                forall|b: int| 0 <= b < j2 ==> #[trigger] r_m.at(i2 as int, b) == gs_r(bv, i2 as int, b),
                forall|b: int|
                    0 <= b < j2 && b < i2 ==> #[trigger] mu_m.at(i2 as int, b) == gs_mu(
                        bv,
                        i2 as int,
                        b,
                    ),
                j2 > i2 ==> gs_r(bv, i2 as int, i2 as int).n > 0,
            decreases i2 + 1 - j2,
        {
            let mut acc = Rat::from_i64(0);
            let mut t: usize = 0;
            while t < j2
                invariant
                    t <= j2,
                    acc.wf(),
                    acc@ == gs_sum(bv, i2 as int, j2 as int, t as int),
                decreases j2 - t,
            {
                let term = mu_m.get(j2, t).mul(r_m.get(i2, t));
                acc = acc.add(&term);
                t += 1;
            }
            let cell = Rat::from_int(g.get(i2, j2)).sub(&acc);
            proof {
                assert(cell@ == gs_r(bv, i2 as int, j2 as int));
            }
            if j2 < i2 {
                r_m.set(i2, j2, cell);
                let rjj = r_m.get(j2, j2);
                let q = r_m.get(i2, j2).div(rjj);
                proof {
                    assert(q@ == gs_mu(bv, i2 as int, j2 as int));
                }
                mu_m.set(i2, j2, q);
            } else {
                if !cell.pos() {
                    proof {
                        assert(!gs_pos(bv, d as int));
                    }
                    return CertOutcome::Degenerate;
                }
                r_m.set(i2, j2, cell);
            }
            j2 += 1;
        }
        i2 += 1;
    }

    // The size-reduction condition: |mu[i][j]| <= eta for j < i.
    let mut i3: usize = 1;
    while i3 < d
        invariant
            1 <= i3 <= d,
            forall|a: int, b: int|
                0 <= b < a < i3 ==> rat_abs_le_v(#[trigger] gs_mu(bv, a, b), eta@),
        decreases d - i3,
    {
        let mut j3: usize = 0;
        while j3 < i3
            invariant
                j3 <= i3,
                forall|b: int| 0 <= b < j3 ==> rat_abs_le_v(#[trigger] gs_mu(bv, i3 as int, b), eta@),
            decreases i3 - j3,
        {
            if !mu_m.get(i3, j3).abs_le(eta) {
                proof {
                    assert(!rat_abs_le_v(gs_mu(bv, i3 as int, j3 as int), eta@));
                    assert(!size_reduced(bv, eta@));
                }
                return CertOutcome::NotReduced;
            }
            j3 += 1;
        }
        i3 += 1;
    }

    // The Lovasz condition at every index.
    let mut i4: usize = 1;
    while i4 < d
        invariant
            1 <= i4 <= d,
            forall|a: int| 1 <= a < i4 ==> lovasz_at(bv, a, delta@),
        decreases d - i4,
    {
        let lhs = delta.mul(r_m.get(i4 - 1, i4 - 1));
        let m = mu_m.get(i4, i4 - 1);
        let msq = m.mul(m);
        let term = msq.mul(r_m.get(i4 - 1, i4 - 1));
        let rhs = r_m.get(i4, i4).add(&term);
        if !lhs.le(&rhs) {
            proof {
                assert(!lovasz_at(bv, i4 as int, delta@));
                assert(!lovasz(bv, delta@));
            }
            return CertOutcome::NotReduced;
        }
        proof {
            assert(lovasz_at(bv, i4 as int, delta@));
        }
        i4 += 1;
    }

    proof {
        assert(is_reduced(bv, eta@, delta@));
    }
    CertOutcome::Reduced
}

/// Recomputes `r` and `mu` on rows `0 ..= k` from the Gram matrix by
/// the defining identities, as the kernel does after a row exchange;
/// fails when a diagonal `r` entry vanishes.
#[verifier::loop_isolation(false)]
fn refresh_mu_r(
    k: usize,
    d: usize,
    gram_m: &IntMatrix,
    mu_m: &mut RatMatrix,
    r_m: &mut RatMatrix,
) -> (res: Result<(), LatticeError>)
    requires
        k < d,
        gram_m.wf(),
        gram_m.dim() == d,
        old(mu_m).wf(),
        old(mu_m).dim() == d,
        old(r_m).wf(),
        old(r_m).dim() == d,
    ensures
        final(mu_m).wf(),
        final(mu_m).dim() == d,
        final(r_m).wf(),
        final(r_m).dim() == d,
{
    let mut ri: usize = 0;
    while ri <= k
        invariant
            ri <= k + 1,
            k < d,
            mu_m.wf(),
            mu_m.dim() == d,
            r_m.wf(),
            r_m.dim() == d,
        decreases k + 1 - ri,
    {
        let mut rj: usize = 0;
        while rj <= ri
            invariant
                rj <= ri + 1,
                ri <= k,
                mu_m.wf(),
                mu_m.dim() == d,
                r_m.wf(),
                r_m.dim() == d,
            decreases ri + 1 - rj,
        {
            let mut acc = Rat::from_i64(0);
            let mut rt: usize = 0;
            while rt < rj
                invariant
                    rt <= rj,
                    acc.wf(),
                    mu_m.wf(),
                    mu_m.dim() == d,
                    r_m.wf(),
                    r_m.dim() == d,
                decreases rj - rt,
            {
                let term = mu_m.get(rj, rt).mul(r_m.get(ri, rt));
                acc = acc.add(&term);
                rt += 1;
            }
            let cell = Rat::from_int(gram_m.get(ri, rj)).sub(&acc);
            if rj < ri {
                r_m.set(ri, rj, cell);
                let rjj = r_m.get(rj, rj);
                if !rjj.nonzero() {
                    return Err(LatticeError::Dependent);
                }
                let q = r_m.get(ri, rj).div(rjj);
                mu_m.set(ri, rj, q);
            } else {
                let vanished = !cell.nonzero();
                r_m.set(ri, rj, cell);
                if vanished {
                    return Err(LatticeError::Dependent);
                }
            }
            rj += 1;
        }
        ri += 1;
    }
    Ok(())
}

/// Lattice reduction (L2 algorithm).
///
/// Reduces `basis` in place until it satisfies the (`eta`, `delta`)
/// reduction conditions, alternating size-reduction with the Lovasz
/// exchange test against the relaxed thresholds `(eta + 1/2) / 2` and
/// `(delta + 1) / 2`, and finally checking the exact conditions.  On
/// success the rows are proved (`eta`, `delta`)-reduced; whatever the
/// outcome, the rows are proved to arise from the input rows by
/// unimodular operations, so they generate the same lattice.
///
/// Fails on `delta` outside `(1/4, 1)`, on `eta` outside
/// `(1/2, sqrt(delta))`, on an empty basis, on rows of unequal
/// dimensions, and on linearly dependent rows.  A dependence failure is
/// itself certified: it is returned only once a freshly recomputed
/// Gram-Schmidt squared norm of the rows as left behind is proved not
/// positive.
#[verifier::loop_isolation(false)]
pub fn lattice_reduce(basis: &mut Vec<BigVector>, eta: &Rat, delta: &Rat) -> (res: Result<
    Reduction,
    LatticeError,
>)
    requires
        eta.wf(),
        delta.wf(),
    ensures
        final(basis)@.len() == old(basis)@.len(),
        unimodular_reach(rows_view(old(basis)@), rows_view(final(basis)@)),
        (res == Err::<Reduction, LatticeError>(LatticeError::BadDelta)) <==> !delta_ok(delta@),
        (res == Err::<Reduction, LatticeError>(LatticeError::BadEta)) <==> (delta_ok(delta@)
            && !eta_ok(eta@, delta@)),
        (res == Err::<Reduction, LatticeError>(LatticeError::EmptyBasis)) <==> (delta_ok(delta@)
            && eta_ok(eta@, delta@) && old(basis)@.len() == 0),
        (res == Err::<Reduction, LatticeError>(LatticeError::DimensionMismatch)) <==> (delta_ok(
            delta@,
        ) && eta_ok(eta@, delta@) && old(basis)@.len() > 0 && !same_dims(rows_view(old(basis)@))),
        res is Ok ==> is_reduced(rows_view(final(basis)@), eta@, delta@),
        res == Err::<Reduction, LatticeError>(LatticeError::Dependent) ==> !gs_pos(
            rows_view(final(basis)@),
            old(basis)@.len() as int,
        ),
        res is Ok ==> same_dims(rows_view(final(basis)@)),
        res is Ok ==> forall|i: int|
            0 <= i < old(basis)@.len() ==> #[trigger] rows_view(final(basis)@)[i].len()
                == rows_view(old(basis)@)[0].len(),
{
    proof {
        lemma_reach_refl(rows_view(basis@));
    }
    // Parameter checks, delta first.
    let quarter = Rat::new(1, 4);
    let one = Rat::from_i64(1);
    if !(quarter.lt(delta) && delta.lt(&one)) {
        return Err(LatticeError::BadDelta);
    }
    let half = Rat::new(1, 2);
    let eta_sq = eta.mul(eta);
    if !(half.lt(eta) && eta_sq.lt(delta)) {
        return Err(LatticeError::BadEta);
    }
    let d = basis.len();
    if d == 0 {
        return Err(LatticeError::EmptyBasis);
    }
    // All rows must have the dimension of the first.
    let n0 = basis[0].dimension();
    let mut ok = true;
    let mut ii: usize = 0;
    while ii < d
        invariant
            ii <= d,
            ok ==> forall|a: int| 0 <= a < ii ==> #[trigger] rows_view(basis@)[a].len() == n0,
            !ok ==> !same_dims(rows_view(basis@)),
        decreases d - ii,
    {
        if basis[ii].dimension() != n0 {
            proof {
                assert(rows_view(basis@)[ii as int].len() != rows_view(basis@)[0].len());
            }
            ok = false;
        }
        ii += 1;
    }
    if !ok {
        return Err(LatticeError::DimensionMismatch);
    }
    proof {
        assert forall|a: int, b: int|
            0 <= a < d && 0 <= b < d implies #[trigger] rows_view(basis@)[a].len()
            == #[trigger] rows_view(basis@)[b].len() by {}
        assert(same_dims(rows_view(basis@)));
    }

    // The relaxed thresholds, as exact rationals.
    let eta_minus = eta.add(&half).mul(&half);
    let delta_plus = delta.add(&one).mul(&half);

    // Scratch matrices.
    let mut gram_m = IntMatrix::init(d);
    let mut r_m = RatMatrix::init(d);
    let mut mu_m = RatMatrix::init(d);

    // The Gram matrix, lower triangle.
    let mut gi: usize = 0;
    while gi < d
        invariant
            gi <= d,
            gram_m.wf(),
            gram_m.dim() == d,
            forall|a: int, b: int|
                0 <= b <= a < gi ==> #[trigger] gram_m.at(a, b) == gram(rows_view(basis@), a, b),
        decreases d - gi,
    {
        let mut gj: usize = 0;
        while gj <= gi
            invariant
                gj <= gi + 1,
                gi < d,
                gram_m.wf(),
                gram_m.dim() == d,
                forall|a: int, b: int|
                    0 <= b <= a < gi ==> #[trigger] gram_m.at(a, b) == gram(
                        rows_view(basis@),
                        a,
                        b,
                    ),
                forall|b: int|
                    0 <= b < gj ==> #[trigger] gram_m.at(gi as int, b) == gram(
                        rows_view(basis@),
                        gi as int,
                        b,
                    ),
            decreases gi + 1 - gj,
        {
            proof {
                assert(rows_view(basis@)[gi as int] == basis@[gi as int]@);
                assert(rows_view(basis@)[gj as int] == basis@[gj as int]@);
                assert(rows_view(basis@)[gi as int].len() == rows_view(basis@)[gj as int].len());
            }
            let v = basis[gi].dot(&basis[gj]);
            gram_m.set(gi, gj, v);
            gj += 1;
        }
        gi += 1;
    }

    let r00 = Rat::from_int(gram_m.get(0, 0));
    r_m.set(0, 0, r00);

    let mut k: usize = 1;
    let mut swaps: usize = 0;
    let mut fuel: u64 = u64::MAX;
    loop
        invariant
            basis@.len() == d,
            same_dims(rows_view(basis@)),
            gram_m.wf(),
            gram_m.dim() == d,
            gram_ok(gram_m, rows_view(basis@), d as int),
            mu_m.wf(),
            mu_m.dim() == d,
            r_m.wf(),
            r_m.dim() == d,
            1 <= k <= d,
            unimodular_reach(rows_view(old(basis)@), rows_view(basis@)),
        decreases fuel,
    {
        if fuel == 0 {
            return Err(LatticeError::Exhausted);
        }
        fuel = fuel - 1;
        if k < d {
            let ghost pre = rows_view(basis@);
            match size_reduce(k, d, basis, &mut gram_m, &mut mu_m, &mut r_m, &eta_minus) {
                Ok(()) => {
                    proof {
                        lemma_reach_trans(rows_view(old(basis)@), pre, rows_view(basis@));
                    }
                }
                Err(e) => {
                    proof {
                        lemma_reach_trans(rows_view(old(basis)@), pre, rows_view(basis@));
                    }
                    if e == LatticeError::Exhausted {
                        return Err(LatticeError::Exhausted);
                    }
                    // A scratch diagonal vanished: let the certifying
                    // pass adjudicate dependence from the rows alone.
                    k = d;
                    continue;
                }
            }

            // The Lovasz exchange test against the relaxed threshold.
            let lhs = delta_plus.mul(r_m.get(k - 1, k - 1));
            let m = mu_m.get(k, k - 1);
            let t = m.square().mul(r_m.get(k - 1, k - 1));
            let rhs = r_m.get(k, k).add(&t);
            if lhs.lt(&rhs) {
                k += 1;
            } else {
                let ghost pre2 = rows_view(basis@);
                swap_adjacent(basis, k);
                proof {
                    lemma_reach_step(rows_view(old(basis)@), pre2, rows_view(basis@));
                    assert forall|a: int, b: int|
                        0 <= a < d && 0 <= b < d implies #[trigger] rows_view(basis@)[a].len()
                        == #[trigger] rows_view(basis@)[b].len() by {
                        assert(pre2[a].len() == pre2[b].len());
                        assert(pre2[k as int].len() == pre2[k - 1].len());
                    }
                    assert(same_dims(rows_view(basis@)));
                }
                if swaps < usize::MAX {
                    swaps += 1;
                }

                // Refresh the Gram entries touching the two rows.
                let ghost gpre = gram_m;
                refresh_gram_row(k, d, basis, &mut gram_m);
                let ghost gmid = gram_m;
                refresh_gram_row(k - 1, d, basis, &mut gram_m);
                proof {
                    assert forall|a2: int, b2: int| 0 <= b2 <= a2 < d implies #[trigger] gram_m.at(
                        a2,
                        b2,
                    ) == gram(rows_view(basis@), a2, b2) by {
                        if a2 == k - 1 || b2 == k - 1 {
                        } else if a2 == k || b2 == k {
                            assert(gram_m.at(a2, b2) == gmid.at(a2, b2));
                        } else {
                            assert(gram_m.at(a2, b2) == gmid.at(a2, b2));
                            assert(gmid.at(a2, b2) == gpre.at(a2, b2));
                            assert(gpre.at(a2, b2) == gram(pre2, a2, b2));
                            assert(rows_view(basis@)[a2] == pre2[a2]);
                            assert(rows_view(basis@)[b2] == pre2[b2]);
                        }
                    }
                }

                // Recompute r and mu on rows 0 ..= k.
                match refresh_mu_r(k, d, &gram_m, &mut mu_m, &mut r_m) {
                    Ok(()) => {
                        k = if k == 1 {
                            1
                        } else {
                            k - 1
                        };
                    }
                    Err(_) => {
                        // A scratch diagonal vanished: let the
                        // certifying pass adjudicate dependence.
                        k = d;
                    }
                }
            }
        } else {
            // The frontier reached the end: check the exact conditions.
            match certify(basis, eta, delta) {
                CertOutcome::Reduced => {
                    proof {
                        lemma_reach_preserves_lattice(
                            rows_view(old(basis)@),
                            rows_view(basis@),
                            Seq::<int>::empty(),
                        );
                        assert forall|i: int| 0 <= i < d implies #[trigger] rows_view(
                            basis@,
                        )[i].len() == rows_view(old(basis)@)[0].len() by {
                            assert(rows_view(basis@)[i].len() == rows_view(basis@)[0].len());
                        }
                    }
                    return Ok(Reduction { swaps });
                },
                CertOutcome::NotReduced => {
                    k = 1;
                },
                CertOutcome::Degenerate => {
                    return Err(LatticeError::Dependent);
                },
            }
        }
    }
}

} // verus!
