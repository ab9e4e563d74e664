use lll::vector::{BigVector, Dot, Vector};
use num_bigint::BigInt;

fn bv(xs: &[i64]) -> BigVector {
    BigVector::from_vector(xs.iter().map(|&x| BigInt::from(x)).collect())
}

#[test]
fn dot_exact() {
    let u = bv(&[1, 2, 3]);
    let v = bv(&[4, -5, 6]);
    assert_eq!(BigVector::dot(&u, &v), BigInt::from(4 - 10 + 18));
}

#[test]
fn dot_through_trait() {
    let u = bv(&[100000, 100000]);
    let v = bv(&[100000, 100000]);
    let d: BigInt = Dot::dot(&u, &v);
    assert_eq!(d, BigInt::from(20000000000i64));
}

#[test]
fn add_and_sub_componentwise() {
    let u = bv(&[5, -7, 9]);
    let v = bv(&[1, 2, 3]);
    let s = u.add(&v);
    let t = u.sub(&v);
    for (i, want) in [6, -5, 12].iter().enumerate() {
        assert_eq!(s.get_coefficient(i), BigInt::from(*want));
    }
    for (i, want) in [4, -9, 6].iter().enumerate() {
        assert_eq!(t.get_coefficient(i), BigInt::from(*want));
    }
}

#[test]
fn mulf_scales() {
    let u = bv(&[2, -3, 0]);
    let r = u.mulf(BigInt::from(-4));
    for (i, want) in [-8, 12, 0].iter().enumerate() {
        assert_eq!(r.get_coefficient(i), BigInt::from(*want));
    }
}

#[test]
fn init_and_basis_vector() {
    let z = BigVector::init(3);
    assert_eq!(z.dimension(), 3);
    for i in 0..3 {
        assert_eq!(z.get_coefficient(i), BigInt::from(0));
    }
    let e1 = z.basis_vector(1);
    assert_eq!(e1.get_coefficient(0), BigInt::from(0));
    assert_eq!(e1.get_coefficient(1), BigInt::from(1));
    assert_eq!(e1.get_coefficient(2), BigInt::from(0));
}

#[test]
fn set_coefficient_replaces() {
    let mut u = bv(&[1, 2, 3]);
    u.set_coefficient(1, BigInt::from(42));
    assert_eq!(u.get_coefficient(0), BigInt::from(1));
    assert_eq!(u.get_coefficient(1), BigInt::from(42));
    assert_eq!(u.get_coefficient(2), BigInt::from(3));
}
