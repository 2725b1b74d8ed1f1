use peano::peano::Peano;
use peano::peano::Peano::Zero;
use peano::peano::PeanoError;
use std::cmp::Ordering;

#[test]
fn test_round_trip() {
    for n in 0..20 {
        assert_eq!(Peano::from_int(n).to_int(), n);
    }
}

#[test]
fn test_from_int_clamps_negative() {
    assert_eq!(Peano::from_int(-1), Zero);
    assert_eq!(Peano::from_int(-100), Zero);
    assert_eq!(Peano::from_int(-1).to_int(), 0);
}

#[test]
fn test_add_identity() {
    let a = Peano::from_int(7);
    assert_eq!(a.add(&Zero), a);
    assert_eq!(Zero.add(&a), a);
    assert_eq!(Zero.add(&Zero), Zero);
}

#[test]
fn test_add_commutes() {
    let five = Peano::from_int(5);
    let three = Peano::from_int(3);
    assert_eq!(five.add(&three), three.add(&five));
    assert_eq!(five.add(&three), Peano::from_int(8));
}

#[test]
fn test_add_associates() {
    let a = Peano::from_int(2);
    let b = Peano::from_int(3);
    let c = Peano::from_int(4);
    assert_eq!(a.add(&b).add(&c), a.add(&b.add(&c)));
    assert_eq!(a.add(&b).add(&c), Peano::from_int(9));
}

#[test]
fn test_mul_zero_and_one() {
    let a = Peano::from_int(6);
    let one = Peano::from_int(1);
    assert_eq!(a.mul(&Zero), Zero);
    assert_eq!(Zero.mul(&a), Zero);
    assert_eq!(a.mul(&one), a);
    assert_eq!(one.mul(&a), a);
}

#[test]
fn test_mul_commutes() {
    let a = Peano::from_int(4);
    let b = Peano::from_int(6);
    assert_eq!(a.mul(&b), b.mul(&a));
    assert_eq!(a.mul(&b).to_int(), 24);
}

#[test]
fn test_sub() {
    let test_data: Vec<(i64, i64, i64)> = vec![
        (5, 3, 2),
        (3, 0, 3),
        (4, 4, 0),
        (0, 4, 0),
        (10, 1, 9),
    ];

    for (a, b, expected) in test_data {
        let result = Peano::from_int(a).sub(&Peano::from_int(b));
        assert_eq!(result, Peano::from_int(expected), "Failed for a: {}, b: {}", a, b);
    }
}

#[test]
fn test_sub_floors_at_zero() {
    assert_eq!(Peano::from_int(3).sub(&Peano::from_int(5)), Zero);
    assert_eq!(Zero.sub(&Peano::from_int(1)), Zero);
    assert_eq!(Peano::from_int(7).sub(&Peano::from_int(8)), Zero);
}

#[test]
fn test_parity_consistency() {
    for n in 0..10 {
        let x = Peano::from_int(n);
        assert_ne!(x.even(), x.odd(), "Failed for n: {}", n);
    }
}

#[test]
fn test_compare_matches_integer_order() {
    for a in 0..6 {
        for b in 0..6 {
            let expected = a.cmp(&b);
            let result = Peano::from_int(a).compare(&Peano::from_int(b));
            assert_eq!(result, expected, "Failed for a: {}, b: {}", a, b);
        }
    }
    assert_eq!(Peano::from_int(5).compare(&Peano::from_int(3)), Ordering::Greater);
    assert_eq!(Peano::from_int(3).compare(&Peano::from_int(5)), Ordering::Less);
    assert_eq!(Peano::from_int(3).compare(&Peano::from_int(3)), Ordering::Equal);
}

#[test]
fn test_div_is_floor_division() {
    for a in 0..15 {
        for b in 1..5 {
            let result = Peano::from_int(a).div(&Peano::from_int(b));
            assert_eq!(result, Ok(Peano::from_int(a / b)), "Failed for a: {}, b: {}", a, b);
        }
    }
    assert_eq!(Peano::from_int(17).div(&Peano::from_int(4)), Ok(Peano::from_int(4)));
    assert_eq!(Peano::from_int(9).div(&Peano::from_int(2)), Ok(Peano::from_int(4)));
}

#[test]
fn test_div_by_zero() {
    assert_eq!(Peano::from_int(6).div(&Zero), Err(PeanoError::DivisionByZero));
    assert_eq!(Zero.div(&Zero), Ok(Zero));
}

#[test]
fn test_clone_is_equal() {
    let a = Peano::from_int(4);
    let b = a.clone();
    assert_eq!(a, b);
    assert_eq!(b.to_int(), 4);
}
