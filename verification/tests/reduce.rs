use lll::l2::bigl2::{lattice_reduce, LatticeError};
use lll::rational::Rat;
use lll::vector::BigVector;
use lll::vector::Vector;
use num_bigint::BigInt;

fn bv(xs: &[i64]) -> BigVector {
    BigVector::from_vector(xs.iter().map(|&x| BigInt::from(x)).collect())
}

fn rows_of(basis: &[BigVector]) -> Vec<Vec<BigInt>> {
    basis
        .iter()
        .map(|v| {
            let mut row = Vec::new();
            let mut i = 0;
            loop {
                if i >= row_len(v) {
                    break;
                }
                row.push(v.get_coefficient(i));
                i += 1;
            }
            row
        })
        .collect()
}

fn row_len(v: &BigVector) -> usize {
    v.dimension()
}

fn neg_row(row: &[BigInt]) -> Vec<BigInt> {
    row.iter().map(|x| -x).collect()
}

fn norm_sq(row: &[BigInt]) -> BigInt {
    row.iter().map(|x| x * x).sum()
}

/// Every expected row appears in the output, up to sign and order.
fn same_rows_up_to_sign(out: &[Vec<BigInt>], expected: &[Vec<i64>]) -> bool {
    if out.len() != expected.len() {
        return false;
    }
    let mut used = vec![false; out.len()];
    for exp in expected {
        let e: Vec<BigInt> = exp.iter().map(|&x| BigInt::from(x)).collect();
        let en = neg_row(&e);
        let mut found = false;
        for (i, row) in out.iter().enumerate() {
            if !used[i] && (*row == e || *row == en) {
                used[i] = true;
                found = true;
                break;
            }
        }
        if !found {
            return false;
        }
    }
    true
}

fn det3(rows: &[Vec<BigInt>]) -> BigInt {
    let a = &rows[0];
    let b = &rows[1];
    let c = &rows[2];
    &a[0] * (&b[1] * &c[2] - &b[2] * &c[1]) - &a[1] * (&b[0] * &c[2] - &b[2] * &c[0]) + &a[2]
        * (&b[0] * &c[1] - &b[1] * &c[0])
}

#[test]
fn s1_classic() {
    let mut basis = vec![bv(&[1, 1, 1]), bv(&[-1, 0, 2]), bv(&[3, 5, 6])];
    let input_det = det3(&rows_of(&basis));
    let eta = Rat::new(51, 100);
    let delta = Rat::new(3, 4);
    let rep = lattice_reduce(&mut basis, &eta, &delta).unwrap();
    let rows = rows_of(&basis);
    // The classic reduced basis of this lattice, up to sign and order.
    assert!(same_rows_up_to_sign(
        &rows,
        &[vec![0, 1, 0], vec![1, 0, 1], vec![-1, 0, 2]]
    ));
    assert_eq!(norm_sq(&rows[0]), BigInt::from(1));
    // The determinant is preserved up to sign.
    let out_det = det3(&rows);
    assert!(out_det == input_det || out_det == -input_det);
    assert!(rep.swaps > 0);
}

#[test]
fn s2_already_reduced_identity() {
    let mut basis = vec![
        bv(&[1, 0, 0, 0]),
        bv(&[0, 1, 0, 0]),
        bv(&[0, 0, 1, 0]),
        bv(&[0, 0, 0, 1]),
    ];
    let eta = Rat::new(51, 100);
    let delta = Rat::new(3, 4);
    let rep = lattice_reduce(&mut basis, &eta, &delta).unwrap();
    assert_eq!(rep.swaps, 0);
    let rows = rows_of(&basis);
    for i in 0..4 {
        for j in 0..4 {
            let want = if i == j { 1 } else { 0 };
            assert_eq!(rows[i][j], BigInt::from(want));
        }
    }
}

#[test]
fn s3_scaled() {
    let mut basis = vec![bv(&[201, 37]), bv(&[1648, 297])];
    let eta = Rat::new(51, 100);
    let delta = Rat::new(99, 100);
    lattice_reduce(&mut basis, &eta, &delta).unwrap();
    let rows = rows_of(&basis);
    // The short pair this lattice reduces to, up to sign.
    let e0 = vec![BigInt::from(1), BigInt::from(32)];
    let e1 = vec![BigInt::from(40), BigInt::from(1)];
    assert!(rows[0] == e0 || rows[0] == neg_row(&e0));
    assert!(rows[1] == e1 || rows[1] == neg_row(&e1));
    // The determinant is preserved up to sign:
    // 201 * 297 - 37 * 1648 = -1279.
    let det = &rows[0][0] * &rows[1][1] - &rows[0][1] * &rows[1][0];
    let full = BigInt::from(1279);
    assert!(det == full || det == -&full);
}

#[test]
fn s4_dependent_rows() {
    let mut basis = vec![bv(&[1, 0]), bv(&[2, 0])];
    let eta = Rat::new(51, 100);
    let delta = Rat::new(3, 4);
    let res = lattice_reduce(&mut basis, &eta, &delta);
    assert_eq!(res.unwrap_err(), LatticeError::Dependent);
}

#[test]
fn s5_lagarias_style_basis() {
    // A fixed five-dimensional basis with entries in [-100, 100].
    let input: Vec<Vec<i64>> = vec![
        vec![-97, 56, 3, -24, 81],
        vec![14, -88, 63, 7, -45],
        vec![52, 11, -76, 39, 28],
        vec![-5, 67, 20, -93, 16],
        vec![71, -32, 49, 58, -60],
    ];
    let mut basis: Vec<BigVector> = input.iter().map(|r| bv(r)).collect();
    let eta = Rat::new(51, 100);
    let delta = Rat::new(3, 4);
    lattice_reduce(&mut basis, &eta, &delta).unwrap();
    let rows = rows_of(&basis);
    // The LLL guarantee: with delta = 3/4 and d = 5,
    // |b0|^2 <= (4 / (4 delta - 1))^(d-1) * lambda1^2 <= 16 * min |input row|^2.
    let min_in = input
        .iter()
        .map(|r| {
            let b: Vec<BigInt> = r.iter().map(|&x| BigInt::from(x)).collect();
            norm_sq(&b)
        })
        .min()
        .unwrap();
    assert!(norm_sq(&rows[0]) <= BigInt::from(16) * min_in);
}

#[test]
fn s6_bad_eta() {
    let mut basis = vec![bv(&[1, 0]), bv(&[0, 1])];
    let eta = Rat::new(2, 5);
    let delta = Rat::new(3, 4);
    let res = lattice_reduce(&mut basis, &eta, &delta);
    assert_eq!(res.unwrap_err(), LatticeError::BadEta);
}

#[test]
fn s6_bad_delta() {
    let mut basis = vec![bv(&[1, 0]), bv(&[0, 1])];
    let eta = Rat::new(51, 100);
    let delta = Rat::new(1, 5);
    let res = lattice_reduce(&mut basis, &eta, &delta);
    assert_eq!(res.unwrap_err(), LatticeError::BadDelta);
    // The basis is untouched on a parameter error.
    let rows = rows_of(&basis);
    assert_eq!(rows[0], vec![BigInt::from(1), BigInt::from(0)]);
    assert_eq!(rows[1], vec![BigInt::from(0), BigInt::from(1)]);
}

#[test]
fn eta_above_sqrt_delta_rejected() {
    let mut basis = vec![bv(&[1, 0]), bv(&[0, 1])];
    // eta^2 = 81/100 > delta = 3/4.
    let eta = Rat::new(9, 10);
    let delta = Rat::new(3, 4);
    let res = lattice_reduce(&mut basis, &eta, &delta);
    assert_eq!(res.unwrap_err(), LatticeError::BadEta);
}

#[test]
fn empty_basis_rejected() {
    let mut basis: Vec<BigVector> = Vec::new();
    let eta = Rat::new(51, 100);
    let delta = Rat::new(3, 4);
    let res = lattice_reduce(&mut basis, &eta, &delta);
    assert_eq!(res.unwrap_err(), LatticeError::EmptyBasis);
}

#[test]
fn mismatched_dimensions_rejected() {
    let mut basis = vec![bv(&[1, 0]), bv(&[1, 2, 3])];
    let eta = Rat::new(51, 100);
    let delta = Rat::new(3, 4);
    let res = lattice_reduce(&mut basis, &eta, &delta);
    assert_eq!(res.unwrap_err(), LatticeError::DimensionMismatch);
}

#[test]
fn negative_coefficient_size_reduced() {
    // mu[1][0] = -10 here: size reduction must also fix coefficients
    // below -eta, adding ten times the first row to the second.
    let mut basis = vec![bv(&[1, 0]), bv(&[-10, 1])];
    let eta = Rat::new(51, 100);
    let delta = Rat::new(3, 4);
    lattice_reduce(&mut basis, &eta, &delta).unwrap();
    let rows = rows_of(&basis);
    assert!(same_rows_up_to_sign(&rows, &[vec![1, 0], vec![0, 1]]));
}

#[test]
fn single_row_basis() {
    let mut basis = vec![bv(&[3, 4])];
    let eta = Rat::new(51, 100);
    let delta = Rat::new(3, 4);
    let rep = lattice_reduce(&mut basis, &eta, &delta).unwrap();
    assert_eq!(rep.swaps, 0);
    let rows = rows_of(&basis);
    assert_eq!(rows[0], vec![BigInt::from(3), BigInt::from(4)]);
}

#[test]
fn single_zero_row_dependent() {
    let mut basis = vec![bv(&[0, 0])];
    let eta = Rat::new(51, 100);
    let delta = Rat::new(3, 4);
    let res = lattice_reduce(&mut basis, &eta, &delta);
    assert_eq!(res.unwrap_err(), LatticeError::Dependent);
}

#[test]
fn dependent_three_rows() {
    // The third row is the sum of the first two: dependence surfaces
    // only once the frontier reaches it.
    let mut basis = vec![bv(&[1, 0, 0]), bv(&[0, 1, 0]), bv(&[1, 1, 0])];
    let eta = Rat::new(51, 100);
    let delta = Rat::new(3, 4);
    let res = lattice_reduce(&mut basis, &eta, &delta);
    assert_eq!(res.unwrap_err(), LatticeError::Dependent);
}

#[test]
fn p4_idempotence_s1() {
    let mut basis = vec![bv(&[1, 1, 1]), bv(&[-1, 0, 2]), bv(&[3, 5, 6])];
    let eta = Rat::new(51, 100);
    let delta = Rat::new(3, 4);
    lattice_reduce(&mut basis, &eta, &delta).unwrap();
    let once = rows_of(&basis);
    let rep = lattice_reduce(&mut basis, &eta, &delta).unwrap();
    let twice = rows_of(&basis);
    assert_eq!(once, twice);
    assert_eq!(rep.swaps, 0);
}

#[test]
fn p4_idempotence_s3() {
    let mut basis = vec![bv(&[201, 37]), bv(&[1648, 297])];
    let eta = Rat::new(51, 100);
    let delta = Rat::new(99, 100);
    lattice_reduce(&mut basis, &eta, &delta).unwrap();
    let once = rows_of(&basis);
    lattice_reduce(&mut basis, &eta, &delta).unwrap();
    let twice = rows_of(&basis);
    assert_eq!(once, twice);
}

#[test]
fn p5_permuted_rows_first_vector_comparable() {
    let eta = Rat::new(51, 100);
    let delta = Rat::new(3, 4);
    let mut a = vec![bv(&[1, 1, 1]), bv(&[-1, 0, 2]), bv(&[3, 5, 6])];
    let mut b = vec![bv(&[1, 1, 1]), bv(&[3, 5, 6]), bv(&[-1, 0, 2])];
    lattice_reduce(&mut a, &eta, &delta).unwrap();
    lattice_reduce(&mut b, &eta, &delta).unwrap();
    let ra = rows_of(&a);
    let rb = rows_of(&b);
    // Both first vectors sit within the LLL factor of the shortest
    // vector, so within the factor of each other:
    // with delta = 3/4 and d = 3 the squared factor is 4.
    let na = norm_sq(&ra[0]);
    let nb = norm_sq(&rb[0]);
    assert!(na.clone() <= BigInt::from(4) * nb.clone());
    assert!(nb <= BigInt::from(4) * na);
}
