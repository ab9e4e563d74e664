use lll::rational::Rat;
use num_bigint::BigInt;

fn eq(a: &Rat, b: &Rat) -> bool {
    a.le(b) && b.le(a)
}

#[test]
fn add_sub_mul_div_exact() {
    let third = Rat::new(1, 3);
    let sixth = Rat::new(1, 6);
    let half = Rat::new(1, 2);
    assert!(eq(&third.add(&sixth), &half));
    assert!(eq(&half.sub(&third), &sixth));
    assert!(eq(&third.mul(&half), &sixth));
    assert!(eq(&sixth.div(&half), &third));
    assert!(eq(&half.square(), &Rat::new(1, 4)));
}

#[test]
fn negative_denominator_normalized() {
    let a = Rat::new(1, -2);
    let b = Rat::new(-1, 2);
    assert!(eq(&a, &b));
    assert!(a.lt(&Rat::new(0, 1)));
}

#[test]
fn ordering() {
    let a = Rat::new(2, 3);
    let b = Rat::new(3, 4);
    assert!(a.lt(&b));
    assert!(a.le(&b));
    assert!(!b.le(&a));
    assert!(!a.lt(&a));
    assert!(a.le(&a));
}

#[test]
fn abs_le_two_sided() {
    let eta = Rat::new(51, 100);
    assert!(Rat::new(1, 2).abs_le(&eta));
    assert!(Rat::new(-1, 2).abs_le(&eta));
    assert!(!Rat::new(52, 100).abs_le(&eta));
    assert!(!Rat::new(-52, 100).abs_le(&eta));
}

#[test]
fn round_half_away_from_zero() {
    assert_eq!(Rat::new(5, 2).round(), BigInt::from(3));
    assert_eq!(Rat::new(-5, 2).round(), BigInt::from(-3));
    assert_eq!(Rat::new(3, 2).round(), BigInt::from(2));
    assert_eq!(Rat::new(-3, 2).round(), BigInt::from(-2));
    assert_eq!(Rat::new(1, 3).round(), BigInt::from(0));
    assert_eq!(Rat::new(-1, 3).round(), BigInt::from(0));
    assert_eq!(Rat::new(7, 3).round(), BigInt::from(2));
    assert_eq!(Rat::new(-7, 3).round(), BigInt::from(-2));
    assert_eq!(Rat::new(4, 2).round(), BigInt::from(2));
}

#[test]
fn from_int_matches() {
    let five = Rat::from_int(&BigInt::from(5));
    assert!(eq(&five, &Rat::new(5, 1)));
    let minus = Rat::from_i64(-7);
    assert!(eq(&minus, &Rat::new(-7, 1)));
}

#[test]
fn pos_and_nonzero() {
    assert!(Rat::new(1, 9).pos());
    assert!(!Rat::new(0, 1).pos());
    assert!(!Rat::new(-1, 9).pos());
    assert!(Rat::new(-1, 9).nonzero());
    assert!(!Rat::new(0, 5).nonzero());
}
