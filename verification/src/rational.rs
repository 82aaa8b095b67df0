//! Exact rational numbers of arbitrary size.
//!
//! A [`Rational`] stores its numerator and denominator as little-endian
//! base-2^32 digit vectors, always in lowest terms with a positive
//! denominator.  Its mathematical value is a [`Fraction`].  The arithmetic
//! itself is done by `num-rational` on `num-bigint` integers.

use num_bigint::{BigInt, Sign};
use num_rational::BigRational;
use num_traits::ToPrimitive;
use vstd::prelude::*;

verus! {

/// The mathematical value of a rational number: `num / den`.
pub struct Fraction {
    pub num: int,
    pub den: int,
}

/// Greatest common divisor of two naturals (`gcd(a, 0) == a`).
pub open spec fn gcd(a: nat, b: nat) -> nat
    decreases b,
{
    if b == 0 {
        a
    } else {
        gcd(b, a % b)
    }
}

/// Absolute value of an integer.
pub open spec fn magnitude(x: int) -> nat {
    if x < 0 {
        (-x) as nat
    } else {
        x as nat
    }
}

impl Fraction {
    /// The fraction `0/1`.
    pub open spec fn zero() -> Fraction {
        Fraction { num: 0, den: 1 }
    }

    /// The fraction `1/1`.
    pub open spec fn one() -> Fraction {
        Fraction { num: 1, den: 1 }
    }

    /// The fraction `-1/1`.
    pub open spec fn minus_one() -> Fraction {
        Fraction { num: -1, den: 1 }
    }

    /// `num / den` brought to lowest terms with a positive denominator.
    /// Meaningful for `den != 0`.
    pub open spec fn lowest_terms(num: int, den: int) -> Fraction {
        let g = gcd(magnitude(num), magnitude(den)) as int;
        if den > 0 {
            Fraction { num: num / g, den: den / g }
        } else {
            Fraction { num: (-num) / g, den: (-den) / g }
        }
    }

    /// The fraction is in lowest terms and its denominator is positive.
    pub open spec fn is_reduced(self) -> bool {
        self.den > 0 && gcd(magnitude(self.num), self.den as nat) == 1
    }

    /// Exact sum, in lowest terms.
    pub open spec fn plus(self, other: Fraction) -> Fraction {
        Fraction::lowest_terms(self.num * other.den + other.num * self.den, self.den * other.den)
    }

    /// Exact product, in lowest terms.
    pub open spec fn times(self, other: Fraction) -> Fraction {
        Fraction::lowest_terms(self.num * other.num, self.den * other.den)
    }

    /// Exact reciprocal, in lowest terms.  Meaningful for `num != 0`.
    pub open spec fn reciprocal(self) -> Fraction {
        Fraction::lowest_terms(self.den, self.num)
    }
}

/// The character of one decimal digit.
pub open spec fn digit_char(d: int) -> char {
    if d == 0 {
        '0'
    } else if d == 1 {
        '1'
    } else if d == 2 {
        '2'
    } else if d == 3 {
        '3'
    } else if d == 4 {
        '4'
    } else if d == 5 {
        '5'
    } else if d == 6 {
        '6'
    } else if d == 7 {
        '7'
    } else if d == 8 {
        '8'
    } else {
        '9'
    }
}

/// Decimal digits of a natural number, most significant first, without
/// leading zeros (`0` is `"0"`).
pub open spec fn decimal(n: nat) -> Seq<char>
    decreases n,
{
    if n < 10 {
        seq![digit_char(n as int)]
    } else {
        decimal(n / 10).push(digit_char((n % 10) as int))
    }
}

/// Decimal text of an integer, with a leading `-` when negative.
pub open spec fn signed_decimal(i: int) -> Seq<char> {
    if i < 0 {
        seq!['-'] + decimal((-i) as nat)
    } else {
        decimal(i as nat)
    }
}

/// Text of a fraction: the numerator alone when the denominator is one,
/// otherwise numerator, `/`, denominator.
pub open spec fn fraction_text(f: Fraction) -> Seq<char> {
    if f.den == 1 {
        signed_decimal(f.num)
    } else {
        signed_decimal(f.num) + seq!['/'] + decimal(f.den as nat)
    }
}

/// Value of a little-endian sequence of base-2^32 digits.
pub open spec fn digits_value(s: Seq<u32>) -> nat
    decreases s.len(),
{
    if s.len() == 0 {
        0
    } else {
        s[0] as nat + 4294967296 * digits_value(s.drop_first())
    }
}

/// No superfluous most-significant zero digit.
pub open spec fn canonical(s: Seq<u32>) -> bool {
    s.len() > 0 ==> s.last() != 0
}

/// Canonical digit sequences are determined by their value.
pub proof fn lemma_digits_injective(a: Seq<u32>, b: Seq<u32>)
    requires
        canonical(a),
        canonical(b),
        digits_value(a) == digits_value(b),
    ensures
        a == b,
    decreases a.len(),
{
    if a.len() == 0 {
        lemma_digits_zero(b);
    } else if b.len() == 0 {
        lemma_digits_zero(a);
    } else {
        let ra = a.drop_first();
        let rb = b.drop_first();
        let va = digits_value(ra) as int;
        let vb = digits_value(rb) as int;
        assert(a[0] as int + 4294967296 * va == b[0] as int + 4294967296 * vb);
        assert(a[0] == b[0] && va == vb) by (nonlinear_arith)
            requires
                a[0] as int + 4294967296 * va == b[0] as int + 4294967296 * vb,
                0 <= a[0] < 4294967296,
                0 <= b[0] < 4294967296,
        ;
        assert(canonical(ra)) by {
            if ra.len() > 0 {
                assert(ra.last() == a.last());
            }
        }
        assert(canonical(rb)) by {
            if rb.len() > 0 {
                assert(rb.last() == b.last());
            }
        }
        lemma_digits_injective(ra, rb);
        assert(a =~= seq![a[0]] + ra);
        assert(b =~= seq![b[0]] + rb);
    }
}

/// A canonical digit sequence of value zero is empty.
pub proof fn lemma_digits_zero(s: Seq<u32>)
    requires
        canonical(s),
        digits_value(s) == 0,
    ensures
        s.len() == 0,
    decreases s.len(),
{
    if s.len() > 0 {
        let r = s.drop_first();
        assert(digits_value(r) == 0) by (nonlinear_arith)
            requires
                s[0] as nat + 4294967296 * digits_value(r) == 0,
        ;
        if r.len() > 0 {
            assert(r.last() == s.last());
            lemma_digits_zero(r);
        } else {
            assert(s.last() == s[0]);
        }
    }
}


/// A digit sequence has value zero exactly when every digit is zero.
pub proof fn lemma_digits_all_zero(s: Seq<u32>)
    ensures
        digits_value(s) == 0 <==> (forall|i: int| 0 <= i < s.len() ==> s[i] == 0),
    decreases s.len(),
{
    if s.len() > 0 {
        let r = s.drop_first();
        lemma_digits_all_zero(r);
        if digits_value(s) == 0 {
            assert(s[0] == 0 && digits_value(r) == 0) by (nonlinear_arith)
                requires
                    s[0] as nat + 4294967296 * digits_value(r) == 0,
            ;
            assert forall|i: int| 0 <= i < s.len() implies s[i] == 0 by {
                if i > 0 {
                    assert(s[i] == r[i - 1]);
                }
            }
        }
        if forall|i: int| 0 <= i < s.len() ==> s[i] == 0 {
            assert forall|i: int| 0 <= i < r.len() implies r[i] == 0 by {
                assert(r[i] == s[i + 1]);
            }
        }
    }
}

/// The integer that a sign flag and a magnitude stand for.
pub open spec fn signed_value(negative: bool, magnitude: nat) -> int {
    if negative {
        -(magnitude as int)
    } else {
        magnitude as int
    }
}

/// An exact rational number of arbitrary size, kept in lowest terms with a
/// positive denominator.
#[derive(Debug, PartialEq, Eq, Hash)]
pub struct Rational {
    negative: bool,
    numer: Vec<u32>,
    denom: Vec<u32>,
}

impl View for Rational {
    type V = Fraction;

    closed spec fn view(&self) -> Fraction {
        Fraction {
            num: signed_value(self.negative, digits_value(self.numer@)),
            den: digits_value(self.denom@) as int,
        }
    }
}

/// Whether every digit of `digits` is zero, that is, whether its value is zero.
fn digits_are_zero(digits: &Vec<u32>) -> (r: bool)
    ensures
        r == (digits_value(digits@) == 0),
{
    let mut i: usize = 0;
    while i < digits.len()
        invariant
            i <= digits.len(),
            forall|j: int| 0 <= j < i ==> digits@[j] == 0,
        decreases digits.len() - i,
    {
        if digits[i] != 0 {
            proof {
                lemma_digits_all_zero(digits@);
                assert(digits@[i as int] != 0);
            }
            return false;
        }
        i += 1;
    }
    proof {
        lemma_digits_all_zero(digits@);
    }
    true
}

/// Whether two digit vectors hold the same digits.
fn digits_equal(a: &Vec<u32>, b: &Vec<u32>) -> (r: bool)
    ensures
        r == (a@ == b@),
{
    if a.len() != b.len() {
        return false;
    }
    let mut i: usize = 0;
    while i < a.len()
        invariant
            i <= a.len(),
            a.len() == b.len(),
            forall|j: int| 0 <= j < i ==> a@[j] == b@[j],
        decreases a.len() - i,
    {
        if a[i] != b[i] {
            return false;
        }
        i += 1;
    }
    assert(a@ =~= b@);
    true
}

/// A fresh vector with the same digits.
fn digits_copy(a: &Vec<u32>) -> (r: Vec<u32>)
    ensures
        r@ == a@,
{
    let mut r: Vec<u32> = Vec::new();
    let mut i: usize = 0;
    while i < a.len()
        invariant
            i <= a.len(),
            r@ == a@.take(i as int),
        decreases a.len() - i,
    {
        r.push(a[i]);
        assert(a@.take(i + 1) =~= a@.take(i as int).push(a@[i as int]));
        i += 1;
    }
    assert(a@.take(a.len() as int) =~= a@);
    r
}

/// Calls `num_rational::Ratio::new` on the two integers that the digit
/// slices stand for (built by `num_bigint::BigInt::from_slice`) and reads the
/// digits of the result back with `BigInt::to_u32_digits`.  `Ratio::new`
/// divides both parts by their greatest common divisor and makes the
/// denominator positive; it panics on a zero denominator, which the
/// `requires` excludes.
#[verifier::external_body]
fn ratio_from_digits(negative: bool, numer: &Vec<u32>, denom: &Vec<u32>) -> (r: Rational)
    requires
        digits_value(denom@) != 0,
    ensures
        r.well_formed(),
        r@ == Fraction::lowest_terms(
            signed_value(negative, digits_value(numer@)),
            digits_value(denom@) as int,
        ),
{
    let sign = if negative { Sign::Minus } else { Sign::Plus };
    let ratio = BigRational::new(
        BigInt::from_slice(sign, numer),
        BigInt::from_slice(Sign::Plus, denom),
    );
    let (s, n) = ratio.numer().to_u32_digits();
    let (_, d) = ratio.denom().to_u32_digits();
    Rational { negative: s == Sign::Minus, numer: n, denom: d }
}

/// Calls `Add::add` of `num_rational::Ratio` on the two values.  The sum is
/// exact and comes back in lowest terms with a positive denominator, which
/// `Ratio::new` sees to; its digits are read with `BigInt::to_u32_digits`,
/// which gives no superfluous zero digit.
#[verifier::external_body]
fn ratio_add(a: &Rational, b: &Rational) -> (r: Rational)
    requires
        a.well_formed(),
        b.well_formed(),
    ensures
        r.well_formed(),
        r@ == a@.plus(b@),
{
    let sa = if a.negative { Sign::Minus } else { Sign::Plus };
    let sb = if b.negative { Sign::Minus } else { Sign::Plus };
    let x = BigRational::new_raw(BigInt::from_slice(sa, &a.numer), BigInt::from_slice(Sign::Plus, &a.denom));
    let y = BigRational::new_raw(BigInt::from_slice(sb, &b.numer), BigInt::from_slice(Sign::Plus, &b.denom));
    let ratio = x + y;
    let (s, n) = ratio.numer().to_u32_digits();
    let (_, d) = ratio.denom().to_u32_digits();
    Rational { negative: s == Sign::Minus, numer: n, denom: d }
}

/// Calls `Mul::mul` of `num_rational::Ratio` on the two values.  The product
/// is exact and comes back in lowest terms with a positive denominator, which
/// `Ratio::new` sees to; its digits are read with `BigInt::to_u32_digits`,
/// which gives no superfluous zero digit.
#[verifier::external_body]
fn ratio_mul(a: &Rational, b: &Rational) -> (r: Rational)
    requires
        a.well_formed(),
        b.well_formed(),
    ensures
        r.well_formed(),
        r@ == a@.times(b@),
{
    let sa = if a.negative { Sign::Minus } else { Sign::Plus };
    let sb = if b.negative { Sign::Minus } else { Sign::Plus };
    let x = BigRational::new_raw(BigInt::from_slice(sa, &a.numer), BigInt::from_slice(Sign::Plus, &a.denom));
    let y = BigRational::new_raw(BigInt::from_slice(sb, &b.numer), BigInt::from_slice(Sign::Plus, &b.denom));
    let ratio = x * y;
    let (s, n) = ratio.numer().to_u32_digits();
    let (_, d) = ratio.denom().to_u32_digits();
    Rational { negative: s == Sign::Minus, numer: n, denom: d }
}

/// Calls `num_traits::ToPrimitive::to_i64` on the numerator, a
/// `num_bigint::BigInt`: the numerator itself where it fits in an `i64`,
/// nothing where it does not.
#[verifier::external_body]
fn ratio_numer_to_i64(a: &Rational) -> (r: Option<i64>)
    ensures
        r == if i64::MIN <= a@.num <= i64::MAX {
            Some(a@.num as i64)
        } else {
            None
        },
{
    let sign = if a.negative { Sign::Minus } else { Sign::Plus };
    BigInt::from_slice(sign, &a.numer).to_i64()
}

/// Formats the value with the `Display` impl of `num_rational::Ratio`: the
/// numerator in decimal, after a `-` where it is negative, followed by `/`
/// and the denominator in decimal unless the denominator is one.
#[verifier::external_body]
fn ratio_to_string(a: &Rational) -> (r: String)
    ensures
        r@ == fraction_text(a@),
{
    let sign = if a.negative { Sign::Minus } else { Sign::Plus };
    let ratio = BigRational::new_raw(
        BigInt::from_slice(sign, &a.numer),
        BigInt::from_slice(Sign::Plus, &a.denom),
    );
    format!("{}", ratio)
}

/// Digits of the magnitude of `n`.
fn magnitude_digits(n: i64) -> (r: Vec<u32>)
    ensures
        digits_value(r@) == magnitude(n as int),
{
    let m: u64 = if n >= 0 {
        n as u64
    } else if n == i64::MIN {
        9223372036854775808u64
    } else {
        (-n) as u64
    };
    let mut r: Vec<u32> = Vec::new();
    r.push((m % 4294967296) as u32);
    r.push((m / 4294967296) as u32);
    proof {
        reveal_with_fuel(digits_value, 3);
        assert(r@.drop_first() =~= seq![(m / 4294967296) as u32]);
        assert(r@.drop_first().drop_first() =~= Seq::<u32>::empty());
    }
    r
}

/// Every natural is coprime to one.
pub proof fn lemma_gcd_one(a: nat)
    ensures
        gcd(a, 1) == 1,
{
    reveal_with_fuel(gcd, 3);
    assert(a % 1 == 0);
}

/// An integer over one is in lowest terms.
pub proof fn lemma_lowest_terms_integer(n: int)
    ensures
        Fraction::lowest_terms(n, 1) == (Fraction { num: n, den: 1 }),
{
    lemma_gcd_one(magnitude(n));
    assert(magnitude(1) == 1);
    let g = gcd(magnitude(n), magnitude(1)) as int;
    assert(g == 1);
    assert(n / g == n);
    assert(1int / g == 1);
}

/// Moving the sign of the denominator to the numerator leaves the lowest
/// terms unchanged.
pub proof fn lemma_lowest_terms_signs(num: int, den: int)
    requires
        den != 0,
    ensures
        Fraction::lowest_terms(num, den) == Fraction::lowest_terms(
            signed_value((num < 0) != (den < 0), magnitude(num)),
            magnitude(den) as int,
        ),
{
}

impl Clone for Rational {
    fn clone(&self) -> (r: Rational)
        ensures
            r@ == self@,
    {
        proof {
            use_type_invariant(self);
        }
        Rational {
            negative: self.negative,
            numer: digits_copy(&self.numer),
            denom: digits_copy(&self.denom),
        }
    }
}

impl Rational {
    /// Digits are canonical, the denominator is positive, the fraction is in
    /// lowest terms, and zero carries no sign.
    #[verifier::type_invariant]
    pub closed spec fn well_formed(&self) -> bool {
        &&& canonical(self.numer@)
        &&& canonical(self.denom@)
        &&& digits_value(self.denom@) > 0
        &&& gcd(digits_value(self.numer@), digits_value(self.denom@)) == 1
        &&& self.negative ==> digits_value(self.numer@) > 0
    }

    /// The rational zero.
    pub fn zero() -> (r: Rational)
        ensures
            r@ == Fraction::zero(),
    {
        let mut denom: Vec<u32> = Vec::new();
        denom.push(1u32);
        proof {
            reveal_with_fuel(digits_value, 3);
            reveal_with_fuel(gcd, 3);
        }
        Rational { negative: false, numer: Vec::new(), denom }
    }

    /// The rational one.
    pub fn one() -> (r: Rational)
        ensures
            r@ == Fraction::one(),
    {
        let mut numer: Vec<u32> = Vec::new();
        numer.push(1u32);
        let mut denom: Vec<u32> = Vec::new();
        denom.push(1u32);
        proof {
            reveal_with_fuel(digits_value, 3);
            reveal_with_fuel(gcd, 3);
        }
        Rational { negative: false, numer, denom }
    }

    /// The rational minus one.
    pub fn minus_one() -> (r: Rational)
        ensures
            r@ == Fraction::minus_one(),
    {
        let mut numer: Vec<u32> = Vec::new();
        numer.push(1u32);
        let mut denom: Vec<u32> = Vec::new();
        denom.push(1u32);
        proof {
            reveal_with_fuel(digits_value, 3);
            reveal_with_fuel(gcd, 3);
        }
        Rational { negative: true, numer, denom }
    }

    /// The rational with the given sign and digits (little-endian, base
    /// 2^32), brought to lowest terms; nothing when the denominator is zero.
    pub fn from_digits(negative: bool, numer: &Vec<u32>, denom: &Vec<u32>) -> (r: Option<
        Rational,
    >)
        ensures
            digits_value(denom@) == 0 ==> r is None,
            digits_value(denom@) != 0 ==> r is Some && r->0@ == Fraction::lowest_terms(
                signed_value(negative, digits_value(numer@)),
                digits_value(denom@) as int,
            ),
    {
        if digits_are_zero(denom) {
            None
        } else {
            Some(ratio_from_digits(negative, numer, denom))
        }
    }

    /// `numer / denom` in lowest terms; nothing when `denom` is zero.
    pub fn new(numer: i64, denom: i64) -> (r: Option<Rational>)
        ensures
            denom == 0 ==> r is None,
            denom != 0 ==> r is Some && r->0@ == Fraction::lowest_terms(numer as int, denom as int),
    {
        if denom == 0 {
            return None;
        }
        let n = magnitude_digits(numer);
        let d = magnitude_digits(denom);
        let negative = (numer < 0) != (denom < 0);
        let r = ratio_from_digits(negative, &n, &d);
        proof {
            lemma_lowest_terms_signs(numer as int, denom as int);
        }
        Some(r)
    }

    /// The integer `n` as a rational.
    pub fn from_integer(n: i64) -> (r: Rational)
        ensures
            r@ == (Fraction { num: n as int, den: 1 }),
    {
        let digits = magnitude_digits(n);
        let mut one: Vec<u32> = Vec::new();
        one.push(1u32);
        proof {
            reveal_with_fuel(digits_value, 3);
            assert(digits_value(one@) == 1);
            let v = signed_value(n < 0, digits_value(digits@));
            assert(v == n as int);
            lemma_gcd_one(magnitude(v));
            assert(Fraction::lowest_terms(v, 1) == Fraction { num: v, den: 1 });
        }
        ratio_from_digits(n < 0, &digits, &one)
    }

    /// Whether the value is negative.
    pub fn is_negative(&self) -> (r: bool)
        ensures
            r == (self@.num < 0),
    {
        proof {
            use_type_invariant(self);
        }
        self.negative
    }

    /// The digits of the numerator's magnitude: little-endian, base 2^32,
    /// without a superfluous leading zero.
    pub fn numerator_digits(&self) -> (r: Vec<u32>)
        ensures
            digits_value(r@) == magnitude(self@.num),
            canonical(r@),
    {
        proof {
            use_type_invariant(self);
        }
        digits_copy(&self.numer)
    }

    /// The digits of the denominator: little-endian, base 2^32, without a
    /// superfluous leading zero.
    pub fn denominator_digits(&self) -> (r: Vec<u32>)
        ensures
            digits_value(r@) == self@.den,
            canonical(r@),
    {
        proof {
            use_type_invariant(self);
        }
        digits_copy(&self.denom)
    }

    /// Whether the value is zero.
    pub fn is_zero(&self) -> (r: bool)
        ensures
            r == (self@.num == 0),
    {
        proof {
            use_type_invariant(self);
            if digits_value(self.numer@) == 0 {
                lemma_digits_zero(self.numer@);
            }
        }
        self.numer.len() == 0
    }

    /// Whether the value is one.
    pub fn is_one(&self) -> (r: bool)
        ensures
            r == (self@ == Fraction::one()),
    {
        proof {
            use_type_invariant(self);
            reveal_with_fuel(digits_value, 3);
            if digits_value(self.numer@) == 1 {
                lemma_digits_injective(self.numer@, seq![1u32]);
            }
            if digits_value(self.denom@) == 1 {
                lemma_digits_injective(self.denom@, seq![1u32]);
            }
        }
        !self.negative && self.numer.len() == 1 && self.numer[0] == 1 && self.denom.len() == 1
            && self.denom[0] == 1
    }

    /// Whether the value is an integer, that is, whether the denominator is one.
    pub fn is_integer(&self) -> (r: bool)
        ensures
            r == (self@.den == 1),
    {
        proof {
            use_type_invariant(self);
            reveal_with_fuel(digits_value, 3);
            if digits_value(self.denom@) == 1 {
                lemma_digits_injective(self.denom@, seq![1u32]);
            }
        }
        self.denom.len() == 1 && self.denom[0] == 1
    }

    /// Exact sum.
    pub fn plus(&self, other: &Rational) -> (r: Rational)
        ensures
            r@ == self@.plus(other@),
    {
        proof {
            use_type_invariant(self);
            use_type_invariant(other);
        }
        ratio_add(self, other)
    }

    /// Exact product.
    pub fn times(&self, other: &Rational) -> (r: Rational)
        ensures
            r@ == self@.times(other@),
    {
        proof {
            use_type_invariant(self);
            use_type_invariant(other);
        }
        ratio_mul(self, other)
    }

    /// Exact reciprocal; nothing for zero.
    pub fn checked_recip(&self) -> (r: Option<Rational>)
        ensures
            self@.num == 0 ==> r is None,
            self@.num != 0 ==> r is Some && r->0@ == self@.reciprocal(),
    {
        if self.is_zero() {
            None
        } else {
            proof {
                use_type_invariant(self);
            }
            Some(ratio_from_digits(self.negative, &self.denom, &self.numer))
        }
    }

    /// The numerator as an `i64`, where it fits.
    pub fn numer_to_i64(&self) -> (r: Option<i64>)
        ensures
            r == if i64::MIN <= self@.num <= i64::MAX {
                Some(self@.num as i64)
            } else {
                None
            },
    {
        ratio_numer_to_i64(self)
    }

    /// Decimal text of the value: `numerator` or `numerator/denominator`.
    pub fn to_text(&self) -> (r: String)
        ensures
            r@ == fraction_text(self@),
    {
        ratio_to_string(self)
    }

    /// Whether two rationals have the same value.
    pub fn equals(&self, other: &Rational) -> (r: bool)
        ensures
            r == (self@ == other@),
    {
        proof {
            use_type_invariant(self);
            use_type_invariant(other);
            if self@ == other@ {
                lemma_digits_injective(self.numer@, other.numer@);
                lemma_digits_injective(self.denom@, other.denom@);
            }
        }
        self.negative == other.negative && digits_equal(&self.numer, &other.numer) && digits_equal(
            &self.denom,
            &other.denom,
        )
    }

    /// The value of every `Rational` is a reduced fraction.
    pub proof fn lemma_view_reduced(&self)
        requires
            self.well_formed(),
        ensures
            self@.is_reduced(),
    {
    }
}

} // verus!
