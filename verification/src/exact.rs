//! Exactness of reduction on arithmetic over literals: what such an
//! expression reduces to is a literal of the same value as the expression.

use crate::collapse::{folded_value, lemma_collapse_parts_push};
use crate::expr::{lemma_size_positive, total_size, Expr, VarOpKind};
use crate::flatten::{
    expansions, flatten, lemma_flatten_preserves, lemma_flatten_size, lemma_partition_size,
    terminals,
};
use crate::laws::{all_literals, lemma_combine_literals};
use crate::rational::{gcd, magnitude, Fraction};
use crate::reduce::{lemma_reduce_seq_push, reduce, reduce_seq};
use vstd::arithmetic::div_mod::{lemma_div_multiples_vanish, lemma_fundamental_div_mod};
use vstd::prelude::*;

verus! {

impl Fraction {
    /// The two fractions stand for the same rational number.
    pub open spec fn same_value(self, other: Fraction) -> bool {
        self.num * other.den == other.num * self.den
    }

    /// The sum as the school rule gives it, not brought to lowest terms.
    pub open spec fn raw_plus(self, other: Fraction) -> Fraction {
        Fraction {
            num: self.num * other.den + other.num * self.den,
            den: self.den * other.den,
        }
    }

    /// The product as the school rule gives it, not brought to lowest terms.
    pub open spec fn raw_times(self, other: Fraction) -> Fraction {
        Fraction { num: self.num * other.num, den: self.den * other.den }
    }

    /// Numerator and denominator exchanged.
    pub open spec fn raw_reciprocal(self) -> Fraction {
        Fraction { num: self.den, den: self.num }
    }
}

/// The greatest common divisor divides both numbers: the result gives the
/// two quotients.
pub proof fn lemma_gcd_divides(a: nat, b: nat) -> (k: (int, int))
    requires
        a > 0 || b > 0,
    ensures
        gcd(a, b) > 0,
        a == gcd(a, b) * k.0,
        b == gcd(a, b) * k.1,
        k.0 >= 0,
        k.1 >= 0,
    decreases b,
{
    if b == 0 {
        assert(a == a * 1 && 0 == a * 0) by (nonlinear_arith);
        (1, 0)
    } else {
        let r = a % b;
        let inner = lemma_gcd_divides(b, r);
        let g = gcd(b, r) as int;
        let q = (a as int) / (b as int);
        lemma_fundamental_div_mod(a as int, b as int);
        assert(q >= 0) by (nonlinear_arith)
            requires
                q == (a as int) / (b as int),
                a >= 0,
                b > 0,
        ;
        assert(a == g * (inner.0 * q + inner.1)) by (nonlinear_arith)
            requires
                a == b * q + r,
                b == g * inner.0,
                r == g * inner.1,
        ;
        assert(inner.0 * q + inner.1 >= 0) by (nonlinear_arith)
            requires
                inner.0 >= 0,
                inner.1 >= 0,
                q >= 0,
        ;
        (inner.0 * q + inner.1, inner.0)
    }
}

/// Bringing a fraction to lowest terms keeps its value and makes the
/// denominator positive.
pub proof fn lemma_lowest_terms_same_value(num: int, den: int)
    requires
        den != 0,
    ensures
        Fraction::lowest_terms(num, den).den > 0,
        Fraction::lowest_terms(num, den).same_value(Fraction { num, den }),
{
    let k = lemma_gcd_divides(magnitude(num), magnitude(den));
    let g = gcd(magnitude(num), magnitude(den)) as int;
    let kn = if num < 0 { -k.0 } else { k.0 };
    let kd = k.1;
    assert(kd > 0) by (nonlinear_arith)
        requires
            magnitude(den) == g * kd,
            magnitude(den) > 0,
            g > 0,
            kd >= 0,
    ;
    if den > 0 {
        assert(num == g * kn) by (nonlinear_arith)
            requires
                magnitude(num) == g * k.0,
                kn == if num < 0 { -k.0 } else { k.0 },
                magnitude(num) == if num < 0 { -num } else { num },
        ;
        lemma_div_multiples_vanish(kn, g);
        lemma_div_multiples_vanish(kd, g);
        assert(num / g == kn);
        assert(den / g == kd);
        assert(kn * den == num * kd) by (nonlinear_arith)
            requires
                num == g * kn,
                den == g * kd,
        ;
    } else {
        assert(-num == g * (-kn)) by (nonlinear_arith)
            requires
                magnitude(num) == g * k.0,
                kn == if num < 0 { -k.0 } else { k.0 },
                magnitude(num) == if num < 0 { -num } else { num },
        ;
        assert(-den == g * kd);
        lemma_div_multiples_vanish(-kn, g);
        lemma_div_multiples_vanish(kd, g);
        assert((-num) / g == -kn);
        assert((-den) / g == kd);
        assert((-kn) * den == num * kd) by (nonlinear_arith)
            requires
                -num == g * (-kn),
                -den == g * kd,
        ;
    }
}

/// Having the same value is transitive where the middle denominator is not
/// zero.
pub proof fn lemma_same_value_transitive(a: Fraction, b: Fraction, c: Fraction)
    requires
        b.den != 0,
        a.same_value(b),
        b.same_value(c),
    ensures
        a.same_value(c),
{
    assert(a.num * c.den == c.num * a.den) by (nonlinear_arith)
        requires
            b.den != 0,
            a.num * b.den == b.num * a.den,
            b.num * c.den == c.num * b.den,
    {
        assert((a.num * c.den) * b.den == (a.num * b.den) * c.den);
        assert((b.num * a.den) * c.den == (b.num * c.den) * a.den);
        assert((c.num * b.den) * a.den == (c.num * a.den) * b.den);
        assert((a.num * c.den - c.num * a.den) * b.den == 0);
    }
}

/// Sums of fractions of the same values have the same value.
pub proof fn lemma_raw_plus_congruent(a: Fraction, b: Fraction, c: Fraction, d: Fraction)
    requires
        a.same_value(c),
        b.same_value(d),
    ensures
        a.raw_plus(b).same_value(c.raw_plus(d)),
{
    let (an, ad, bn, bd) = (a.num, a.den, b.num, b.den);
    let (cn, cd, dn, dd) = (c.num, c.den, d.num, d.den);
    assert((an * bd) * (cd * dd) == (an * cd) * (bd * dd)) by (nonlinear_arith);
    assert((cn * dd) * (ad * bd) == (cn * ad) * (bd * dd)) by (nonlinear_arith);
    assert((bn * ad) * (cd * dd) == (bn * dd) * (ad * cd)) by (nonlinear_arith);
    assert((dn * cd) * (ad * bd) == (dn * bd) * (ad * cd)) by (nonlinear_arith);
    assert((an * bd + bn * ad) * (cd * dd) == (an * bd) * (cd * dd) + (bn * ad) * (cd * dd))
        by (nonlinear_arith);
    assert((cn * dd + dn * cd) * (ad * bd) == (cn * dd) * (ad * bd) + (dn * cd) * (ad * bd))
        by (nonlinear_arith);
    assert((an * cd) * (bd * dd) == (cn * ad) * (bd * dd));
    assert((bn * dd) * (ad * cd) == (dn * bd) * (ad * cd));
}

/// Products of fractions of the same values have the same value.
pub proof fn lemma_raw_times_congruent(a: Fraction, b: Fraction, c: Fraction, d: Fraction)
    requires
        a.same_value(c),
        b.same_value(d),
    ensures
        a.raw_times(b).same_value(c.raw_times(d)),
{
    assert((a.num * b.num) * (c.den * d.den) == (c.num * d.num) * (a.den * b.den))
        by (nonlinear_arith)
        requires
            a.num * c.den == c.num * a.den,
            b.num * d.den == d.num * b.den,
    {
        assert((a.num * b.num) * (c.den * d.den) == (a.num * c.den) * (b.num * d.den));
        assert((c.num * d.num) * (a.den * b.den) == (c.num * a.den) * (d.num * b.den));
    }
}

/// Fractions of the same value are zero together.
pub proof fn lemma_same_value_zero(a: Fraction, b: Fraction)
    requires
        a.den != 0,
        b.den != 0,
        a.same_value(b),
    ensures
        a.num == 0 <==> b.num == 0,
{
    assert(a.num == 0 <==> b.num == 0) by (nonlinear_arith)
        requires
            a.den != 0,
            b.den != 0,
            a.num * b.den == b.num * a.den,
    ;
}

/// A product of two integers other than zero is not zero.
pub proof fn lemma_product_not_zero(x: int, y: int)
    requires
        x != 0,
        y != 0,
    ensures
        x * y != 0,
{
    assert(x * y != 0) by (nonlinear_arith)
        requires
            x != 0,
            y != 0,
    ;
}

/// The raw sum is associative and commutative, and zero is neutral.
pub proof fn lemma_raw_plus_monoid(a: Fraction, b: Fraction, c: Fraction)
    ensures
        a.raw_plus(b).raw_plus(c) == a.raw_plus(b.raw_plus(c)),
        a.raw_plus(b) == b.raw_plus(a),
        a.raw_plus(Fraction::zero()) == a,
        Fraction::zero().raw_plus(a) == a,
{
    assert((a.num * b.den + b.num * a.den) * c.den + c.num * (a.den * b.den) == a.num * (b.den
        * c.den) + (b.num * c.den + c.num * b.den) * a.den) by (nonlinear_arith);
    assert((a.den * b.den) * c.den == a.den * (b.den * c.den)) by (nonlinear_arith);
    assert(a.num * b.den + b.num * a.den == b.num * a.den + a.num * b.den);
    assert(a.den * b.den == b.den * a.den) by (nonlinear_arith);
    assert(a.num * 1 + 0 * a.den == a.num && a.den * 1 == a.den && 0 * a.den + a.num * 1 == a.num
        && 1 * a.den == a.den) by (nonlinear_arith);
}

/// The raw product is associative and commutative, and one is neutral.
pub proof fn lemma_raw_times_monoid(a: Fraction, b: Fraction, c: Fraction)
    ensures
        a.raw_times(b).raw_times(c) == a.raw_times(b.raw_times(c)),
        a.raw_times(b) == b.raw_times(a),
        a.raw_times(Fraction::one()) == a,
        Fraction::one().raw_times(a) == a,
{
    assert((a.num * b.num) * c.num == a.num * (b.num * c.num)) by (nonlinear_arith);
    assert((a.den * b.den) * c.den == a.den * (b.den * c.den)) by (nonlinear_arith);
    assert(a.num * b.num == b.num * a.num) by (nonlinear_arith);
    assert(a.den * b.den == b.den * a.den) by (nonlinear_arith);
    assert(a.num * 1 == a.num && a.den * 1 == a.den && 1 * a.num == a.num && 1 * a.den == a.den)
        by (nonlinear_arith);
}


impl VarOpKind {
    /// The operator applied to two fractions by the school rule, not
    /// brought to lowest terms.
    pub open spec fn raw_combine(self, x: Fraction, y: Fraction) -> Fraction {
        match self {
            VarOpKind::Add => x.raw_plus(y),
            VarOpKind::Mul => x.raw_times(y),
        }
    }
}

/// The operator applied to two values, where both exist.
pub open spec fn combine_values(
    kind: VarOpKind,
    a: Option<Fraction>,
    b: Option<Fraction>,
) -> Option<Fraction> {
    match (a, b) {
        (Some(x), Some(y)) => Some(kind.raw_combine(x, y)),
        _ => None,
    }
}

impl Expr {
    /// Every literal of the tree has a denominator other than zero.
    pub open spec fn has_valid_literals(self) -> bool
        decreases self,
    {
        match self {
            Expr::Const(_) => true,
            Expr::Num { val, .. } => val.den != 0,
            Expr::Inverse(a) => a.has_valid_literals(),
            Expr::VarOp { children, .. } => forall|i: int|
                0 <= i < children.len() ==> (#[trigger] children[i]).has_valid_literals(),
            Expr::Exp(a, b) => a.has_valid_literals() && b.has_valid_literals(),
            Expr::Trig(_, a) => a.has_valid_literals(),
        }
    }

    /// Arithmetic over literals with denominators other than zero.
    pub open spec fn is_exact_arithmetic(self) -> bool {
        self.is_arithmetic() && self.has_valid_literals()
    }
}

/// Every member of the sequence is arithmetic over valid literals.
pub open spec fn all_exact_arithmetic(s: Seq<Expr>) -> bool {
    forall|i: int| 0 <= i < s.len() ==> (#[trigger] s[i]).is_exact_arithmetic()
}

/// The value of arithmetic over literals, computed along the tree: a
/// literal is its value, an operator combines the values of its operands
/// from the left, an inverse exchanges numerator and denominator.  Nothing
/// for the inverse of zero, nor for what is not arithmetic over literals.
pub open spec fn exact_value(e: Expr) -> Option<Fraction>
    decreases e,
{
    match e {
        Expr::Num { val, .. } => Some(val),
        Expr::Inverse(a) => match exact_value(*a) {
            Some(v) => if v.num == 0 {
                None
            } else {
                Some(v.raw_reciprocal())
            },
            None => None,
        },
        Expr::VarOp { kind, children } => exact_fold(kind, children),
        _ => None,
    }
}

/// The values of the members of `s` combined under `kind` from the left,
/// starting from the neutral element.
pub open spec fn exact_fold(kind: VarOpKind, s: Seq<Expr>) -> Option<Fraction>
    decreases s,
{
    if s.len() == 0 {
        Some(kind.identity())
    } else {
        combine_values(kind, exact_fold(kind, s.drop_last()), exact_value(s.last()))
    }
}

/// The raw operators are associative and commutative with a neutral element.
pub proof fn lemma_raw_combine_monoid(kind: VarOpKind, a: Fraction, b: Fraction, c: Fraction)
    ensures
        kind.raw_combine(kind.raw_combine(a, b), c) == kind.raw_combine(a, kind.raw_combine(b, c)),
        kind.raw_combine(a, b) == kind.raw_combine(b, a),
        kind.raw_combine(a, kind.identity()) == a,
        kind.raw_combine(kind.identity(), a) == a,
{
    lemma_raw_plus_monoid(a, b, c);
    lemma_raw_times_monoid(a, b, c);
}

/// Combining values that may be missing is associative and commutative.
pub proof fn lemma_combine_values_monoid(
    kind: VarOpKind,
    a: Option<Fraction>,
    b: Option<Fraction>,
    c: Option<Fraction>,
)
    ensures
        combine_values(kind, combine_values(kind, a, b), c) == combine_values(
            kind,
            a,
            combine_values(kind, b, c),
        ),
        combine_values(kind, a, b) == combine_values(kind, b, a),
        combine_values(kind, a, Some(kind.identity())) == a,
        combine_values(kind, Some(kind.identity()), a) == a,
{
    if a is Some {
        lemma_raw_combine_monoid(kind, a->0, a->0, a->0);
        if b is Some {
            lemma_raw_combine_monoid(kind, a->0, b->0, b->0);
            if c is Some {
                lemma_raw_combine_monoid(kind, a->0, b->0, c->0);
            }
        }
    }
}

/// The value of a sequence with one more member.
pub proof fn lemma_exact_fold_push(kind: VarOpKind, s: Seq<Expr>, x: Expr)
    ensures
        exact_fold(kind, s.push(x)) == combine_values(kind, exact_fold(kind, s), exact_value(x)),
{
    assert(s.push(x).drop_last() =~= s);
}

/// The value of a concatenation is the two values combined.
pub proof fn lemma_exact_fold_concat(kind: VarOpKind, a: Seq<Expr>, b: Seq<Expr>)
    ensures
        exact_fold(kind, a + b) == combine_values(kind, exact_fold(kind, a), exact_fold(kind, b)),
    decreases b.len(),
{
    if b.len() == 0 {
        assert(a + b =~= a);
        lemma_combine_values_monoid(kind, exact_fold(kind, a), None, None);
    } else {
        let front = b.drop_last();
        assert((a + b).drop_last() =~= a + front);
        assert((a + b).last() == b.last());
        lemma_exact_fold_concat(kind, a, front);
        lemma_combine_values_monoid(
            kind,
            exact_fold(kind, a),
            exact_fold(kind, front),
            exact_value(b.last()),
        );
    }
}

/// Splitting a sequence into its terminals and its expansions keeps the
/// value.
pub proof fn lemma_exact_fold_partition(kind: VarOpKind, s: Seq<Expr>)
    ensures
        exact_fold(kind, s) == combine_values(
            kind,
            exact_fold(kind, terminals(s, kind)),
            exact_fold(kind, expansions(s, kind)),
        ),
    decreases s.len(),
{
    if s.len() == 0 {
        lemma_combine_values_monoid(kind, Some(kind.identity()), None, None);
    } else {
        let front = s.drop_last();
        let x = s.last();
        let kept = exact_fold(kind, terminals(front, kind));
        let opened = exact_fold(kind, expansions(front, kind));
        let value = exact_value(x);
        lemma_exact_fold_partition(kind, front);
        if x.is_var_op_of(kind) {
            lemma_exact_fold_concat(kind, expansions(front, kind), x->VarOp_children);
            lemma_combine_values_monoid(kind, kept, opened, value);
        } else {
            lemma_exact_fold_push(kind, terminals(front, kind), x);
            lemma_combine_values_monoid(kind, kept, opened, value);
            lemma_combine_values_monoid(kind, opened, value, None);
            lemma_combine_values_monoid(kind, kept, value, opened);
        }
    }
}

/// Flattening keeps the value.
pub proof fn lemma_exact_fold_flatten(kind: VarOpKind, s: Seq<Expr>)
    ensures
        exact_fold(kind, flatten(s, kind)) == exact_fold(kind, s),
    decreases total_size(s),
{
    if s.len() > 0 {
        lemma_partition_size(s, kind);
        lemma_exact_fold_flatten(kind, expansions(s, kind));
        lemma_exact_fold_concat(kind, terminals(s, kind), flatten(expansions(s, kind), kind));
        lemma_exact_fold_partition(kind, s);
    }
}

/// What a reduction gave stands for what the tree is worth: a literal of
/// the same value where there is a value, nothing where there is none.
pub open spec fn agrees(reduced: Option<Expr>, value: Option<Fraction>) -> bool {
    match reduced {
        Some(r) => {
            &&& r is Num
            &&& r->Num_val.den != 0
            &&& value is Some
            &&& value->0.den != 0
            &&& r->Num_val.same_value(value->0)
        },
        None => value is None,
    }
}

/// Flattening keeps arithmetic over valid literals what it is.
pub proof fn lemma_flatten_exact_arithmetic(s: Seq<Expr>, kind: VarOpKind)
    requires
        all_exact_arithmetic(s),
    ensures
        all_exact_arithmetic(flatten(s, kind)),
{
    lemma_flatten_preserves(s, kind, |e: Expr| e.is_exact_arithmetic());
}

/// Reduction is exact on arithmetic over literals: it gives a literal of
/// the value that the tree has, and it fails exactly where the tree takes
/// the inverse of zero.
pub proof fn lemma_reduce_exact(e: Expr)
    requires
        e.is_exact_arithmetic(),
    ensures
        agrees(reduce(e), exact_value(e)),
    decreases e.size(), 0nat,
{
    match e {
        Expr::Num { val, .. } => {},
        Expr::Inverse(a) => {
            lemma_reduce_exact(*a);
            if let Some(inner) = reduce(*a) {
                let v = inner->Num_val;
                let w = exact_value(*a)->0;
                lemma_same_value_zero(v, w);
                if v.num != 0 {
                    lemma_lowest_terms_same_value(v.den, v.num);
                    assert(v.den * w.num == w.den * v.num) by (nonlinear_arith)
                        requires
                            v.num * w.den == w.num * v.den,
                    ;
                    lemma_same_value_transitive(
                        v.reciprocal(),
                        v.raw_reciprocal(),
                        w.raw_reciprocal(),
                    );
                }
            }
        },
        Expr::VarOp { kind, children } => {
            lemma_flatten_size(children, kind);
            lemma_flatten_exact_arithmetic(children, kind);
            lemma_reduce_seq_exact(kind, flatten(children, kind));
            lemma_exact_fold_flatten(kind, children);
            if let Some(operands) = reduce_seq(flatten(children, kind)) {
                lemma_combine_literals(kind, operands);
            }
        },
        _ => {},
    }
}

/// Reduction is exact on sequences of arithmetic over literals: the
/// literals it gives fold to the value that the sequence has.
pub proof fn lemma_reduce_seq_exact(kind: VarOpKind, s: Seq<Expr>)
    requires
        all_exact_arithmetic(s),
    ensures
        match reduce_seq(s) {
            Some(rs) => {
                &&& all_literals(rs)
                &&& folded_value(rs, kind).den != 0
                &&& exact_fold(kind, s) is Some
                &&& exact_fold(kind, s)->0.den != 0
                &&& folded_value(rs, kind).same_value(exact_fold(kind, s)->0)
            },
            None => exact_fold(kind, s) is None,
        },
    decreases total_size(s), 1nat,
{
    if s.len() > 0 {
        let front = s.drop_last();
        let x = s.last();
        assert forall|i: int| 0 <= i < front.len() implies (#[trigger] front[i]).is_exact_arithmetic() by {
            assert(front[i] == s[i]);
        }
        assert(x == s[s.len() - 1]);
        lemma_size_positive(x);
        lemma_reduce_seq_exact(kind, front);
        lemma_reduce_exact(x);
        if let Some(rs) = reduce_seq(s) {
            let reduced_front = reduce_seq(front)->0;
            let reduced_x = reduce(x)->0;
            assert(rs == reduced_front.push(reduced_x));
            assert forall|i: int| 0 <= i < rs.len() implies (#[trigger] rs[i]) is Num by {
                if i < reduced_front.len() {
                    assert(rs[i] == reduced_front[i]);
                }
            }
            lemma_collapse_parts_push(reduced_front, reduced_x, kind);
            let folded = folded_value(reduced_front, kind);
            let literal = reduced_x->Num_val;
            let worth = exact_fold(kind, front)->0;
            let value = exact_value(x)->0;
            let raw = kind.raw_combine(folded, literal);
            let exact = kind.raw_combine(worth, value);
            lemma_product_not_zero(folded.den, literal.den);
            lemma_product_not_zero(worth.den, value.den);
            lemma_lowest_terms_same_value(raw.num, raw.den);
            assert(folded_value(rs, kind) == Fraction::lowest_terms(raw.num, raw.den));
            match kind {
                VarOpKind::Add => lemma_raw_plus_congruent(folded, literal, worth, value),
                VarOpKind::Mul => lemma_raw_times_congruent(folded, literal, worth, value),
            }
            lemma_same_value_transitive(folded_value(rs, kind), raw, exact);
        }
    } else {
        assert(kind.identity().den == 1);
        assert(kind.identity().same_value(kind.identity()));
    }
}

} // verus!
