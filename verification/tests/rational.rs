use a22abb2_core::Rational;

#[test]
fn new_brings_to_lowest_terms() {
    let r = Rational::new(4, -6).unwrap();
    assert_eq!(r.to_text(), "-2/3");
    assert!(r.is_negative());
    assert_eq!(r.numerator_digits(), vec![2]);
    assert_eq!(r.denominator_digits(), vec![3]);
    assert_eq!(Rational::new(-4, -6).unwrap().to_text(), "2/3");
    assert_eq!(Rational::new(6, 3).unwrap().to_text(), "2");
    assert_eq!(Rational::new(0, -5).unwrap(), Rational::zero());
}

#[test]
fn new_refuses_zero_denominator() {
    assert!(Rational::new(1, 0).is_none());
    assert!(Rational::new(0, 0).is_none());
}

#[test]
fn extreme_integers() {
    assert_eq!(Rational::from_integer(i64::MIN).to_text(), "-9223372036854775808");
    assert_eq!(Rational::from_integer(i64::MAX).to_text(), "9223372036854775807");
    assert_eq!(Rational::new(i64::MIN, i64::MIN).unwrap(), Rational::one());
    assert_eq!(Rational::new(i64::MIN, 2).unwrap().to_text(), "-4611686018427387904");
    assert_eq!(Rational::from_integer(i64::MIN).numer_to_i64(), Some(i64::MIN));
    assert_eq!(Rational::from_integer(i64::MAX).numer_to_i64(), Some(i64::MAX));
}

#[test]
fn constants() {
    assert_eq!(Rational::zero().to_text(), "0");
    assert_eq!(Rational::one().to_text(), "1");
    assert_eq!(Rational::minus_one().to_text(), "-1");
    assert_eq!(Rational::zero(), Rational::from_integer(0));
    assert_eq!(Rational::one(), Rational::from_integer(1));
    assert_eq!(Rational::minus_one(), Rational::from_integer(-1));
    assert!(Rational::zero().is_zero());
    assert!(!Rational::one().is_zero());
    assert!(Rational::one().is_one());
    assert!(!Rational::minus_one().is_one());
    assert!(!Rational::zero().is_one());
    assert!(!Rational::new(1, 2).unwrap().is_one());
    assert!(Rational::from_integer(5).is_integer());
    assert!(!Rational::new(5, 2).unwrap().is_integer());
}

#[test]
fn from_digits_handles_large_values() {
    let r = Rational::from_digits(false, &vec![0, 1], &vec![1]).unwrap();
    assert_eq!(r.to_text(), "4294967296");
    let s = Rational::from_digits(true, &vec![0, 0, 1], &vec![0, 1]).unwrap();
    assert_eq!(s.to_text(), "-4294967296");
    assert_eq!(s.numerator_digits(), vec![0, 1]);
    assert_eq!(s.denominator_digits(), vec![1]);
    let t = Rational::from_digits(false, &vec![0, 0, 1], &vec![3, 0, 0]).unwrap();
    assert_eq!(t.to_text(), "18446744073709551616/3");
    assert_eq!(t.numer_to_i64(), None);
    let zero = Rational::from_digits(true, &vec![0, 0], &vec![7]).unwrap();
    assert_eq!(zero, Rational::zero());
    assert!(!zero.is_negative());
}

#[test]
fn from_digits_refuses_zero_denominator() {
    assert!(Rational::from_digits(false, &vec![1], &vec![]).is_none());
    assert!(Rational::from_digits(false, &vec![1], &vec![0, 0]).is_none());
}

#[test]
fn sum_and_product_are_exact() {
    let half = Rational::new(1, 2).unwrap();
    let third = Rational::new(1, 3).unwrap();
    assert_eq!(half.plus(&third), Rational::new(5, 6).unwrap());
    assert_eq!(half.plus(&half), Rational::one());
    assert_eq!(half.plus(&Rational::new(-1, 2).unwrap()), Rational::zero());
    let a = Rational::new(2, 3).unwrap();
    let b = Rational::new(3, 4).unwrap();
    assert_eq!(a.times(&b), half);
    assert_eq!(a.times(&Rational::zero()), Rational::zero());
    assert_eq!(a.times(&Rational::minus_one()), Rational::new(-2, 3).unwrap());
    let big = Rational::from_integer(i64::MAX);
    assert_eq!(big.plus(&big).to_text(), "18446744073709551614");
    assert_eq!(big.times(&big).to_text(), "85070591730234615847396907784232501249");
}

#[test]
fn reciprocal() {
    assert_eq!(Rational::new(2, 3).unwrap().checked_recip(), Some(Rational::new(3, 2).unwrap()));
    assert_eq!(Rational::new(-2, 3).unwrap().checked_recip(), Some(Rational::new(-3, 2).unwrap()));
    assert_eq!(Rational::from_integer(4).checked_recip(), Some(Rational::new(1, 4).unwrap()));
    assert_eq!(Rational::zero().checked_recip(), None);
}

#[test]
fn numerator_as_i64() {
    assert_eq!(Rational::new(-7, 3).unwrap().numer_to_i64(), Some(-7));
    assert_eq!(Rational::zero().numer_to_i64(), Some(0));
    let above = Rational::from_integer(i64::MAX).plus(&Rational::one());
    assert_eq!(above.numer_to_i64(), None);
    let below = Rational::from_integer(i64::MIN).plus(&Rational::minus_one());
    assert_eq!(below.numer_to_i64(), None);
}

#[test]
fn equality_and_copy() {
    let a = Rational::new(10, 4).unwrap();
    let b = Rational::new(5, 2).unwrap();
    assert!(a.equals(&b));
    assert!(a.equals(&a.clone()));
    assert!(!a.equals(&Rational::new(-5, 2).unwrap()));
    assert!(!a.equals(&Rational::new(5, 3).unwrap()));
    assert!(!a.equals(&Rational::new(7, 2).unwrap()));
    assert_eq!(a.clone().to_text(), "5/2");
}
