use pfrust::rational::Ratio;

#[test]
fn arithmetic_is_exact() {
    let a = Ratio::new(1, 3);
    let b = Ratio::new(1, 6);
    let sum = a.checked_add(b).unwrap();
    assert!(sum.equiv(Ratio::new(1, 2)));
    let diff = a.checked_sub(b).unwrap();
    assert!(diff.equiv(Ratio::new(1, 6)));
    let prod = a.checked_mul(b).unwrap();
    assert!(prod.equiv(Ratio::new(1, 18)));
    let quot = a.checked_div(b).unwrap();
    assert!(quot.equiv(Ratio::new(2, 1)));
}

#[test]
fn division_handles_negative_divisors() {
    let a = Ratio::new(1, 2);
    let b = Ratio::new(-2, 3);
    let q = a.checked_div(b).unwrap();
    assert!(q.equiv(Ratio::new(-3, 4)));
    assert!(q.denom() > 0);
}

#[test]
fn reduce_brings_to_smaller_terms_without_changing_value() {
    let r = Ratio::new(9, 18).reduce();
    assert_eq!(r.numer(), 1);
    assert_eq!(r.denom(), 2);
    let n = Ratio::new(-10, 4).reduce();
    assert_eq!(n.numer(), -5);
    assert_eq!(n.denom(), 2);
    assert!(n.equiv(Ratio::new(-10, 4)));
}

#[test]
fn comparisons_are_by_value() {
    assert!(Ratio::new(1, 3).lt(Ratio::new(1, 2)));
    assert!(!Ratio::new(2, 4).lt(Ratio::new(1, 2)));
    assert!(Ratio::new(2, 4).le(Ratio::new(1, 2)));
    assert!(Ratio::new(2, 4).equiv(Ratio::new(1, 2)));
    assert!(Ratio::new(-1, 2).lt(Ratio::zero()));
    assert!(Ratio::zero().lt(Ratio::one()));
}

#[test]
fn overflow_is_detected_not_wrapped() {
    let big = Ratio::new(i64::MAX, 1);
    assert!(big.checked_add(big).is_none());
    assert!(big.checked_mul(big).is_none());
    // 1 / MAX + 1 / MAX has denominator MAX^2: too large exactly
    let tiny = Ratio::new(1, i64::MAX);
    assert!(tiny.checked_add(tiny).is_none());
}
