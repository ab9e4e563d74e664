//! The mathematical model of lattice basis reduction.
//!
//! A basis is a sequence of rows, each a sequence of integers.  The
//! Gram matrix, the Gram-Schmidt quantities `r` and `mu`, the
//! (eta, delta) reduction conditions and the unimodular row operations
//! are all defined here as pure specifications; the executable kernel
//! is proved against them.

use vstd::prelude::*;
use crate::vector::dot_int;
use crate::rational::{RatV, rat_int, rat_add_v, rat_sub_v, rat_mul_v, rat_div_v, rat_le_v,
    rat_abs_le_v};

verus! {

/// All rows have the same length.
pub open spec fn same_dims(b: Seq<Seq<int>>) -> bool {
    forall|i: int, j: int|
        0 <= i < b.len() && 0 <= j < b.len() ==> #[trigger] b[i].len() == #[trigger] b[j].len()
}

/// The Gram matrix entry: the dot product of rows `i` and `j`.
pub open spec fn gram(b: Seq<Seq<int>>, i: int, j: int) -> int {
    dot_int(b[i], b[j])
}

/// The partial sum of `mu[j][t'] * r[i][t']` over `t' < t`, accumulated
/// in the order the kernel computes it.
pub open spec fn gs_sum(b: Seq<Seq<int>>, i: int, j: int, t: int) -> RatV
    decreases j, 0int, t,
{
    if t <= 0 || t > j {
        rat_int(0)
    } else {
        rat_add_v(gs_sum(b, i, j, t - 1), rat_mul_v(gs_mu(b, j, t - 1), gs_r(b, i, t - 1)))
    }
}

/// The Gram-Schmidt quantity `r[i][j] = <b_i, b*_j>`, by the defining
/// recurrence `r[i][j] = G[i][j] - sum_{t<j} mu[j][t] * r[i][t]`.
pub open spec fn gs_r(b: Seq<Seq<int>>, i: int, j: int) -> RatV
    decreases j, 1int, 0int,
{
    if j < 0 {
        rat_int(0)
    } else {
        rat_sub_v(rat_int(gram(b, i, j)), gs_sum(b, i, j, j))
    }
}

/// The Gram-Schmidt coefficient `mu[i][j] = r[i][j] / r[j][j]`.
pub open spec fn gs_mu(b: Seq<Seq<int>>, i: int, j: int) -> RatV
    decreases j, 2int, 0int,
{
    if j < 0 {
        rat_int(0)
    } else {
        rat_div_v(gs_r(b, i, j), gs_r(b, j, j))
    }
}

/// The first `m` Gram-Schmidt squared norms are strictly positive; this
/// fails exactly when the rows are linearly dependent (or degenerate).
pub open spec fn gs_pos(b: Seq<Seq<int>>, m: int) -> bool {
    forall|t: int| 0 <= t < m ==> (#[trigger] gs_r(b, t, t)).n > 0
}

/// Every coefficient `mu[i][j]` with `j < i` is at most `eta` in
/// absolute value.
pub open spec fn size_reduced(b: Seq<Seq<int>>, eta: RatV) -> bool {
    forall|i: int, j: int|
        0 <= j < i < b.len() ==> rat_abs_le_v(#[trigger] gs_mu(b, i, j), eta)
}

/// The Lovasz condition at index `i`:
/// `delta * r[i-1][i-1] <= r[i][i] + mu[i][i-1]^2 * r[i-1][i-1]`.
pub open spec fn lovasz_at(b: Seq<Seq<int>>, i: int, delta: RatV) -> bool {
    rat_le_v(
        rat_mul_v(delta, gs_r(b, i - 1, i - 1)),
        rat_add_v(
            gs_r(b, i, i),
            rat_mul_v(rat_mul_v(gs_mu(b, i, i - 1), gs_mu(b, i, i - 1)), gs_r(b, i - 1, i - 1)),
        ),
    )
}

/// The Lovasz condition holds at every index.
pub open spec fn lovasz(b: Seq<Seq<int>>, delta: RatV) -> bool {
    forall|i: int| 1 <= i < b.len() ==> lovasz_at(b, i, delta)
}

/// The basis is (eta, delta)-reduced: its Gram-Schmidt squared norms
/// are positive, it is eta-size-reduced, and it satisfies the
/// delta-Lovasz condition throughout.
pub open spec fn is_reduced(b: Seq<Seq<int>>, eta: RatV, delta: RatV) -> bool {
    &&& gs_pos(b, b.len() as int)
    &&& size_reduced(b, eta)
    &&& lovasz(b, delta)
}

/// The dot product is symmetric.
pub proof fn lemma_dot_comm(u: Seq<int>, v: Seq<int>)
    requires
        u.len() == v.len(),
    ensures
        dot_int(u, v) == dot_int(v, u),
    decreases u.len(),
{
    if u.len() > 0 {
        lemma_dot_comm(u.drop_last(), v.drop_last());
    }
}

/// The partial sums are well-formed fractions wherever the diagonal
/// quantities before `j` are positive.
proof fn lemma_sum_wf(b: Seq<Seq<int>>, i: int, j: int, t: int)
    requires
        gs_pos(b, j),
    ensures
        gs_sum(b, i, j, t).d > 0,
    decreases j, 0int, t,
{
    if t <= 0 || t > j {
    } else {
        lemma_sum_wf(b, i, j, t - 1);
        lemma_mu_wf(b, j, t - 1);
        lemma_r_wf(b, i, t - 1);
        let s = gs_sum(b, i, j, t - 1);
        let p = rat_mul_v(gs_mu(b, j, t - 1), gs_r(b, i, t - 1));
        assert(p.d > 0) by (nonlinear_arith)
            requires
                p.d == gs_mu(b, j, t - 1).d * gs_r(b, i, t - 1).d,
                gs_mu(b, j, t - 1).d > 0,
                gs_r(b, i, t - 1).d > 0,
        ;
        assert(s.d * p.d > 0) by (nonlinear_arith)
            requires
                s.d > 0,
                p.d > 0,
        ;
    }
}

/// The `r` quantities are well-formed fractions wherever the diagonal
/// quantities before `j` are positive.
proof fn lemma_r_wf(b: Seq<Seq<int>>, i: int, j: int)
    requires
        gs_pos(b, j),
    ensures
        gs_r(b, i, j).d > 0,
    decreases j, 1int, 0int,
{
    if j < 0 {
    } else {
        lemma_sum_wf(b, i, j, j);
    }
}

/// The `mu` coefficients are well-formed fractions wherever the
/// diagonal quantities through `j` are positive.
proof fn lemma_mu_wf(b: Seq<Seq<int>>, i: int, j: int)
    requires
        gs_pos(b, j + 1),
        j >= 0,
    ensures
        gs_mu(b, i, j).d > 0,
    decreases j, 2int, 0int,
{
    assert(gs_pos(b, j));
    lemma_r_wf(b, i, j);
    lemma_r_wf(b, j, j);
    let a = gs_r(b, i, j);
    let q = gs_r(b, j, j);
    assert(q.n > 0);
    assert(a.d * q.n > 0) by (nonlinear_arith)
        requires
            a.d > 0,
            q.n > 0,
    ;
}

/// On a basis whose Gram-Schmidt squared norms are positive — as every
/// (eta, delta)-reduced basis has — each quantity `r[i][j]` with
/// `j <= i` and each coefficient `mu[i][j]` with `j < i` is a fraction
/// with a positive denominator, so the cross-multiplied comparisons in
/// the reduction conditions speak of genuine rational numbers.
pub proof fn lemma_gs_cells_wf(b: Seq<Seq<int>>, i: int, j: int)
    requires
        gs_pos(b, b.len() as int),
        0 <= j <= i < b.len(),
    ensures
        gs_r(b, i, j).d > 0,
        j < i ==> gs_mu(b, i, j).d > 0,
        gs_r(b, i, i).n > 0,
{
    assert(gs_pos(b, j));
    lemma_r_wf(b, i, j);
    if j < i {
        assert(gs_pos(b, j + 1));
        lemma_mu_wf(b, i, j);
    }
}

/// The basis with rows `i` and `j` exchanged.
pub open spec fn swap_rows(a: Seq<Seq<int>>, i: int, j: int) -> Seq<Seq<int>> {
    a.update(i, a[j]).update(j, a[i])
}

/// One row exchange: a unimodular operation.
pub open spec fn swap_step(a: Seq<Seq<int>>, b: Seq<Seq<int>>) -> bool {
    exists|i: int, j: int|
        0 <= i < a.len() && 0 <= j < a.len() && i != j && b == #[trigger] swap_rows(a, i, j)
}

/// Row `u` minus `x` times row `v`, componentwise.
pub open spec fn shear_vec(u: Seq<int>, v: Seq<int>, x: int) -> Seq<int> {
    Seq::new(u.len(), |t: int| u[t] - x * v[t])
}

/// One shear `row_k <- row_k - x * row_i` with `i != k` and an integer
/// `x`: a unimodular operation.
pub open spec fn shear_step(a: Seq<Seq<int>>, b: Seq<Seq<int>>) -> bool {
    exists|k: int, i: int, x: int|
        0 <= k < a.len() && 0 <= i < a.len() && i != k && a[i].len() == a[k].len() && b
            == #[trigger] a.update(k, shear_vec(a[k], a[i], x))
}

/// One unimodular row operation.
pub open spec fn row_step(a: Seq<Seq<int>>, b: Seq<Seq<int>>) -> bool {
    swap_step(a, b) || shear_step(a, b)
}

/// `b` arises from `a` by exactly `n` unimodular row operations.
pub open spec fn reach_n(a: Seq<Seq<int>>, b: Seq<Seq<int>>, n: nat) -> bool
    decreases n,
{
    if n == 0 {
        b == a
    } else {
        exists|m: Seq<Seq<int>>| reach_n(a, m, (n - 1) as nat) && row_step(m, b)
    }
}

/// `b` arises from `a` by finitely many unimodular row operations, so
/// the two row sets generate the same lattice: `b = U * a` for a
/// unimodular integer matrix `U`.
pub open spec fn unimodular_reach(a: Seq<Seq<int>>, b: Seq<Seq<int>>) -> bool {
    exists|n: nat| reach_n(a, b, n)
}

/// Reachability is reflexive.
pub proof fn lemma_reach_refl(a: Seq<Seq<int>>)
    ensures
        unimodular_reach(a, a),
{
    assert(reach_n(a, a, 0));
}

/// Reachability extends by one more row operation.
pub proof fn lemma_reach_step(a: Seq<Seq<int>>, m: Seq<Seq<int>>, b: Seq<Seq<int>>)
    requires
        unimodular_reach(a, m),
        row_step(m, b),
    ensures
        unimodular_reach(a, b),
{
    let n = choose|n: nat| reach_n(a, m, n);
    assert(reach_n(a, b, n + 1));
}

/// Coordinate `t` of the integer combination `sum_{p < m} c[p] * b[p]`.
pub open spec fn comb_coord(c: Seq<int>, b: Seq<Seq<int>>, t: int, m: int) -> int
    decreases m,
{
    if m <= 0 {
        0
    } else {
        comb_coord(c, b, t, m - 1) + c[m - 1] * b[m - 1][t]
    }
}

/// The integer combination `sum_p c[p] * b[p]`, as a vector of length `n`.
pub open spec fn lin_comb(c: Seq<int>, b: Seq<Seq<int>>, n: int) -> Seq<int> {
    Seq::new(n as nat, |t: int| comb_coord(c, b, t, b.len() as int))
}

/// `v` lies in the lattice generated by the rows of `b`: it is an
/// integer combination of them.
pub open spec fn in_lattice(v: Seq<int>, b: Seq<Seq<int>>) -> bool {
    exists|c: Seq<int>| c.len() == b.len() && v == lin_comb(c, b, v.len() as int)
}

/// Changing coefficient and row at one position `p` shifts a
/// combination's coordinate by the old term out and the new term in.
proof fn lemma_comb_update(c: Seq<int>, b: Seq<Seq<int>>, t: int, m: int, p: int, x: int, w: Seq<int>)
    requires
        0 <= p < m,
        m <= b.len(),
        m <= c.len(),
    ensures
        comb_coord(c.update(p, x), b.update(p, w), t, m) == comb_coord(c, b, t, m) - c[p] * b[p][t]
            + x * w[t],
    decreases m,
{
    if m - 1 == p {
        assert(comb_coord(c.update(p, x), b.update(p, w), t, m - 1) == comb_coord(c, b, t, m - 1))
            by {
            lemma_comb_agree(c.update(p, x), c, b.update(p, w), b, t, m - 1);
        }
    } else {
        lemma_comb_update(c, b, t, m - 1, p, x, w);
    }
}

/// A combination's coordinate depends only on the first `m` entries.
proof fn lemma_comb_agree(c1: Seq<int>, c2: Seq<int>, b1: Seq<Seq<int>>, b2: Seq<Seq<int>>, t: int, m: int)
    requires
        forall|p: int| 0 <= p < m ==> c1[p] == c2[p] && b1[p] == b2[p],
    ensures
        comb_coord(c1, b1, t, m) == comb_coord(c2, b2, t, m),
    decreases m,
{
    if m > 0 {
        lemma_comb_agree(c1, c2, b1, b2, t, m - 1);
    }
}

/// A row exchange leaves a combination's coordinates unchanged once
/// the matching coefficients are exchanged too.
proof fn lemma_swap_comb(c: Seq<int>, a: Seq<Seq<int>>, i: int, j: int, t: int)
    requires
        0 <= i < a.len(),
        0 <= j < a.len(),
        i != j,
        c.len() == a.len(),
    ensures
        comb_coord(
            c.update(i, c[j]).update(j, c[i]),
            swap_rows(a, i, j),
            t,
            a.len() as int,
        ) == comb_coord(c, a, t, a.len() as int),
{
    let m = a.len() as int;
    let c1 = c.update(i, c[j]);
    let a1 = a.update(i, a[j]);
    lemma_comb_update(c, a, t, m, i, c[j], a[j]);
    lemma_comb_update(c1, a1, t, m, j, c[i], a[i]);
}

/// A shear leaves a combination's coordinates unchanged once the
/// subtracted multiple is added back to the matching coefficient.
proof fn lemma_shear_comb(c: Seq<int>, a: Seq<Seq<int>>, k: int, i: int, x: int, t: int)
    requires
        0 <= k < a.len(),
        0 <= i < a.len(),
        i != k,
        c.len() == a.len(),
        0 <= t < a[k].len(),
        a[i].len() == a[k].len(),
    ensures
        comb_coord(
            c.update(i, c[i] + x * c[k]),
            a.update(k, shear_vec(a[k], a[i], x)),
            t,
            a.len() as int,
        ) == comb_coord(c, a, t, a.len() as int),
{
    let m = a.len() as int;
    let w = shear_vec(a[k], a[i], x);
    let a1 = a.update(k, w);
    assert(c.update(k, c[k]) =~= c);
    lemma_comb_update(c, a, t, m, k, c[k], w);
    assert(comb_coord(c, a1, t, m) == comb_coord(c, a, t, m) - c[k] * a[k][t] + c[k] * w[t]);
    let c2 = c.update(i, c[i] + x * c[k]);
    assert(a1.update(i, a1[i]) =~= a1);
    lemma_comb_update(c, a1, t, m, i, c[i] + x * c[k], a1[i]);
    assert(w[t] == a[k][t] - x * a[i][t]);
    assert(c[k] * (a[k][t] - x * a[i][t]) - c[k] * a[k][t] + x * c[k] * a[i][t] == 0)
        by (nonlinear_arith);
    assert((c[i] + x * c[k]) * a[i][t] - c[i] * a[i][t] == x * c[k] * a[i][t]) by (nonlinear_arith);
}

/// Every unimodular row operation can be undone by one of the same
/// kind.
proof fn lemma_step_symmetric(a: Seq<Seq<int>>, b: Seq<Seq<int>>)
    requires
        row_step(a, b),
    ensures
        row_step(b, a),
        b.len() == a.len(),
{
    if swap_step(a, b) {
        let (i, j) = choose|i: int, j: int|
            0 <= i < a.len() && 0 <= j < a.len() && i != j && b == #[trigger] swap_rows(a, i, j);
        assert(swap_rows(b, i, j) =~= a);
        assert(swap_step(b, a));
    } else {
        let (k, i, x) = choose|k: int, i: int, x: int|
            0 <= k < a.len() && 0 <= i < a.len() && i != k && a[i].len() == a[k].len() && b
                == #[trigger] a.update(k, shear_vec(a[k], a[i], x));
        assert forall|t: int| 0 <= t < a[k].len() implies shear_vec(b[k], b[i], -x)[t]
            == a[k][t] by {
            assert(b[k][t] == a[k][t] - x * a[i][t]);
            assert(b[i][t] == a[i][t]);
            assert((a[k][t] - x * a[i][t]) - (-x) * a[i][t] == a[k][t]) by (nonlinear_arith);
        }
        assert(shear_vec(b[k], b[i], -x) =~= a[k]);
        assert(b.update(k, shear_vec(b[k], b[i], -x)) =~= a);
        assert(shear_step(b, a));
    }
}

/// One unimodular row operation keeps the row count, the row lengths,
/// and every lattice member, provided the member is no longer than the
/// rows.
proof fn lemma_step_lattice(a: Seq<Seq<int>>, b: Seq<Seq<int>>, v: Seq<int>)
    requires
        row_step(a, b),
        same_dims(a),
        a.len() > 0 ==> v.len() <= a[0].len(),
    ensures
        b.len() == a.len(),
        same_dims(b),
        a.len() > 0 ==> b[0].len() == a[0].len(),
        in_lattice(v, a) ==> in_lattice(v, b),
{
    let n = v.len() as int;
    if swap_step(a, b) {
        let (i, j) = choose|i: int, j: int|
            0 <= i < a.len() && 0 <= j < a.len() && i != j && b == #[trigger] swap_rows(a, i, j);
        assert forall|p: int, q: int|
            0 <= p < b.len() && 0 <= q < b.len() implies #[trigger] b[p].len()
            == #[trigger] b[q].len() by {
            assert(a[p].len() == a[q].len());
            assert(a[i].len() == a[j].len());
        }
        if in_lattice(v, a) {
            let c = choose|c: Seq<int>| c.len() == a.len() && v == lin_comb(c, a, n);
            let c2 = c.update(i, c[j]).update(j, c[i]);
            assert forall|t: int| 0 <= t < n implies comb_coord(c2, b, t, b.len() as int)
                == comb_coord(c, a, t, a.len() as int) by {
                lemma_swap_comb(c, a, i, j, t);
            }
            assert(lin_comb(c2, b, n) =~= lin_comb(c, a, n));
            assert(c2.len() == b.len());
            assert(v == lin_comb(c2, b, n));
            assert(in_lattice(v, b));
        }
    } else {
        let (k, i, x) = choose|k: int, i: int, x: int|
            0 <= k < a.len() && 0 <= i < a.len() && i != k && a[i].len() == a[k].len() && b
                == #[trigger] a.update(k, shear_vec(a[k], a[i], x));
        assert(b[k].len() == a[k].len());
        assert forall|p: int, q: int|
            0 <= p < b.len() && 0 <= q < b.len() implies #[trigger] b[p].len()
            == #[trigger] b[q].len() by {
            assert(a[p].len() == a[q].len());
        }
        if in_lattice(v, a) {
            let c = choose|c: Seq<int>| c.len() == a.len() && v == lin_comb(c, a, n);
            let c2 = c.update(i, c[i] + x * c[k]);
            assert forall|t: int| 0 <= t < n implies comb_coord(c2, b, t, b.len() as int)
                == comb_coord(c, a, t, a.len() as int) by {
                assert(a[k].len() == a[0].len());
                lemma_shear_comb(c, a, k, i, x, t);
            }
            assert(lin_comb(c2, b, n) =~= lin_comb(c, a, n));
            assert(c2.len() == b.len());
            assert(v == lin_comb(c2, b, n));
            assert(in_lattice(v, b));
        }
    }
}

/// Induction over the number of row operations.
proof fn lemma_reach_lattice_n(a: Seq<Seq<int>>, b: Seq<Seq<int>>, v: Seq<int>, n: nat)
    requires
        reach_n(a, b, n),
        same_dims(a),
        a.len() > 0 ==> v.len() <= a[0].len(),
    ensures
        b.len() == a.len(),
        same_dims(b),
        a.len() > 0 ==> b[0].len() == a[0].len(),
        in_lattice(v, a) <==> in_lattice(v, b),
    decreases n,
{
    if n == 0 {
        assert(b == a);
    } else {
        let mid = choose|mid: Seq<Seq<int>>| reach_n(a, mid, (n - 1) as nat) && row_step(mid, b);
        lemma_reach_lattice_n(a, mid, v, (n - 1) as nat);
        lemma_step_lattice(mid, b, v);
        lemma_step_symmetric(mid, b);
        lemma_step_lattice(b, mid, v);
    }
}

/// Lattice preservation: when `b` arises from `a` by unimodular row
/// operations — as the reduction guarantees of its output — the two
/// generate the same lattice: a vector no longer than the rows is an
/// integer combination of the rows of `a` exactly when it is one of
/// the rows of `b`.
pub proof fn lemma_reach_preserves_lattice(a: Seq<Seq<int>>, b: Seq<Seq<int>>, v: Seq<int>)
    requires
        unimodular_reach(a, b),
        same_dims(a),
        a.len() > 0 ==> v.len() <= a[0].len(),
    ensures
        b.len() == a.len(),
        same_dims(b),
        a.len() > 0 ==> b[0].len() == a[0].len(),
        in_lattice(v, a) <==> in_lattice(v, b),
{
    let n = choose|n: nat| reach_n(a, b, n);
    lemma_reach_lattice_n(a, b, v, n);
}

/// Helper for transitivity: induction over the second leg's length.
proof fn lemma_reach_trans_n(a: Seq<Seq<int>>, m: Seq<Seq<int>>, b: Seq<Seq<int>>, n: nat)
    requires
        unimodular_reach(a, m),
        reach_n(m, b, n),
    ensures
        unimodular_reach(a, b),
    decreases n,
{
    if n == 0 {
        assert(b == m);
    } else {
        let mid = choose|mid: Seq<Seq<int>>|
            reach_n(m, mid, (n - 1) as nat) && row_step(mid, b);
        lemma_reach_trans_n(a, m, mid, (n - 1) as nat);
        lemma_reach_step(a, mid, b);
    }
}

/// Reachability is transitive.
pub proof fn lemma_reach_trans(a: Seq<Seq<int>>, m: Seq<Seq<int>>, b: Seq<Seq<int>>)
    requires
        unimodular_reach(a, m),
        unimodular_reach(m, b),
    ensures
        unimodular_reach(a, b),
{
    let n = choose|n: nat| reach_n(m, b, n);
    lemma_reach_trans_n(a, m, b, n);
}

} // verus!
