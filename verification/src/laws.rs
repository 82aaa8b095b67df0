//! Laws of reduction, proved for all expressions.

use crate::base::combine_base;
use crate::collapse::{
    collapse, folded_base, folded_value, has_numeric, lemma_collapse_parts_push, non_numeric,
};
use crate::expr::{lemma_size_positive, total_size, Expr, VarOpKind};
use crate::flatten::{flatten, lemma_flatten_of_flat, lemma_flatten_preserves, lemma_flatten_size};
use crate::rational::{lemma_lowest_terms_integer, Fraction};
use crate::reduce::{
    add_weight, combine_operands, group_terms, lemma_add_weight_absent, lemma_add_weight_found,
    lemma_group_terms_push, lemma_recombine_all_push, lemma_reduce_seq_push, recombine,
    recombine_all, reduce, reduce_seq, reduce_trig, split_term, Group,
};
use vstd::prelude::*;

verus! {

/// One raised to any power reduces to one, whenever the exponent can be
/// reduced at all.
pub proof fn lemma_one_to_any_power(y: Expr)
    requires
        reduce(y) is Some,
    ensures
        reduce(Expr::Exp(Box::new(Expr::one()), Box::new(y))) == Some(Expr::one()),
{
    assert(reduce(Expr::one()) == Some(Expr::one()));
}

/// Anything raised to the power zero reduces to one, whenever the base can
/// be reduced at all.
pub proof fn lemma_any_to_power_zero(x: Expr)
    requires
        reduce(x) is Some,
    ensures
        reduce(Expr::Exp(Box::new(x), Box::new(Expr::zero()))) == Some(Expr::one()),
{
    assert(reduce(Expr::zero()) == Some(Expr::zero()));
}


/// Zero plus one is one, and one more is two.
pub proof fn lemma_count_to_two()
    ensures
        Fraction::zero().plus(Fraction::one()) == Fraction::one(),
        Fraction::one().plus(Fraction::one()) == (Fraction { num: 2, den: 1 }),
{
    lemma_lowest_terms_integer(1);
    lemma_lowest_terms_integer(2);
    assert(0int * 1int + 1int * 1int == 1 && 1int * 1int + 1int * 1int == 2 && 1int * 1int == 1)
        by (nonlinear_arith);
    assert(Fraction::zero().plus(Fraction::one()) == Fraction::lowest_terms(1, 1));
    assert(Fraction::one().plus(Fraction::one()) == Fraction::lowest_terms(2, 1));
}

/// A single weight of one leaves the bare key.
pub proof fn lemma_recombine_counted_once(kind: VarOpKind, key: Expr)
    ensures
        recombine(kind, Group { key, weights: seq![Expr::one()] }) == Some(key),
{
    let weights = seq![Expr::one()];
    let empty = Seq::<Expr>::empty();
    assert(weights =~= empty.push(Expr::one()));
    lemma_collapse_parts_push(empty, Expr::one(), VarOpKind::Add);
    lemma_count_to_two();
    assert(collapse(weights, VarOpKind::Add) =~= seq![Expr::one()]);
}

/// Like factors: the product of an expression with itself reduces to the
/// square of its reduced form.  This holds where the expression is not
/// itself a product, which would be flattened, and where its reduced form
/// is neither a literal, which would be multiplied out, nor a power, whose
/// exponents would be summed.
pub proof fn lemma_like_factors(x: Expr)
    requires
        !x.is_var_op_of(VarOpKind::Mul),
        reduce(x) is Some,
        !(reduce(x)->0 is Num),
        !(reduce(x)->0 is Exp),
    ensures
        reduce(Expr::product(x, x)) == Some(
            Expr::Exp(
                Box::new(reduce(x)->0),
                Box::new(Expr::Num { val: Fraction { num: 2, den: 1 }, input_base: None }),
            ),
        ),
{
    let kind = VarOpKind::Mul;
    let rx = reduce(x)->0;
    let empty = Seq::<Expr>::empty();
    let two = Expr::Num { val: Fraction { num: 2, den: 1 }, input_base: None };
    // the operands are flat already
    let s = seq![x, x];
    lemma_flatten_of_flat(s, kind);
    // both reduce to the same form
    assert(s =~= empty.push(x).push(x));
    lemma_reduce_seq_push(empty, x);
    lemma_reduce_seq_push(empty.push(x), x);
    let rs = seq![rx, rx];
    assert(reduce_seq(s) == Some(rs)) by {
        assert(empty.push(rx).push(rx) =~= rs);
    }
    // no literal is folded
    assert(rs =~= empty.push(rx).push(rx));
    lemma_collapse_parts_push(empty, rx, kind);
    lemma_collapse_parts_push(empty.push(rx), rx, kind);
    assert(collapse(rs, kind) =~= rs);
    // one group with two weights of one
    lemma_group_terms_push(kind, empty, rx);
    lemma_group_terms_push(kind, empty.push(rx), rx);
    let first = seq![Group { key: rx, weights: seq![Expr::one()] }];
    assert(group_terms(kind, empty.push(rx)) =~= first);
    lemma_add_weight_found(first, rx, Expr::one(), 0);
    let ones = seq![Expr::one(), Expr::one()];
    let group = Group { key: rx, weights: ones };
    assert(group_terms(kind, rs) =~= seq![group]) by {
        assert(seq![Expr::one()].push(Expr::one()) =~= ones);
    }
    // the weights sum to two
    assert(ones =~= empty.push(Expr::one()).push(Expr::one()));
    lemma_collapse_parts_push(empty, Expr::one(), VarOpKind::Add);
    lemma_collapse_parts_push(empty.push(Expr::one()), Expr::one(), VarOpKind::Add);
    lemma_count_to_two();
    assert(collapse(ones, VarOpKind::Add) =~= seq![two]);
    assert(recombine(kind, group) == Some(kind.compressed(rx, two)));
    let groups = Seq::<Group>::empty();
    assert(seq![group] =~= groups.push(group));
    lemma_recombine_all_push(kind, groups, group);
    assert(recombine_all(kind, seq![group]) =~= seq![kind.compressed(rx, two)]);
    assert(combine_operands(kind, rs) == kind.compressed(rx, two));
}

/// Mixed numeric folding: a sum of two literals and one other operand
/// reduces to a sum of exactly two terms, the second of which is the folded
/// literal.  This holds where the operand is not itself a sum, which would
/// be flattened, and where its reduced form is not a literal and is not
/// collected under the key that the folded literal is.
pub proof fn lemma_mixed_numeric_folding(
    a: Fraction,
    a_base: Option<u32>,
    b: Fraction,
    b_base: Option<u32>,
    x: Expr,
)
    requires
        !x.is_var_op_of(VarOpKind::Add),
        reduce(x) is Some,
        !(reduce(x)->0 is Num),
        split_term(VarOpKind::Add, reduce(x)->0).0 != (Expr::Num {
            val: Fraction::zero().plus(a).plus(b),
            input_base: combine_base(a_base, b_base),
        }),
    ensures
        ({
            let n = Expr::VarOp {
                kind: VarOpKind::Add,
                children: seq![
                    Expr::Num { val: a, input_base: a_base },
                    Expr::Num { val: b, input_base: b_base },
                    x,
                ],
            };
            let literal = Expr::Num {
                val: Fraction::zero().plus(a).plus(b),
                input_base: combine_base(a_base, b_base),
            };
            let (key, weight) = split_term(VarOpKind::Add, reduce(x)->0);
            &&& recombine(VarOpKind::Add, Group { key, weights: seq![weight] }) is Some
            &&& reduce(n) == Some(
                Expr::VarOp {
                    kind: VarOpKind::Add,
                    children: seq![
                        recombine(VarOpKind::Add, Group { key, weights: seq![weight] })->0,
                        literal,
                    ],
                },
            )
        }),
{
    let kind = VarOpKind::Add;
    let rx = reduce(x)->0;
    let na = Expr::Num { val: a, input_base: a_base };
    let nb = Expr::Num { val: b, input_base: b_base };
    let literal = Expr::Num {
        val: Fraction::zero().plus(a).plus(b),
        input_base: combine_base(a_base, b_base),
    };
    let empty = Seq::<Expr>::empty();
    let s = seq![na, nb, x];
    lemma_flatten_of_flat(s, kind);
    assert(s =~= empty.push(na).push(nb).push(x));
    lemma_reduce_seq_push(empty, na);
    lemma_reduce_seq_push(empty.push(na), nb);
    lemma_reduce_seq_push(empty.push(na).push(nb), x);
    let rs = seq![na, nb, rx];
    assert(reduce_seq(s) == Some(rs)) by {
        assert(empty.push(na).push(nb).push(rx) =~= rs);
    }
    // the literals fold into one, which stands last
    assert(rs =~= empty.push(na).push(nb).push(rx));
    lemma_collapse_parts_push(empty, na, kind);
    lemma_collapse_parts_push(empty.push(na), nb, kind);
    lemma_collapse_parts_push(empty.push(na).push(nb), rx, kind);
    let folded = seq![rx, literal];
    assert(collapse(rs, kind) =~= folded);
    // two groups
    let (key, weight) = split_term(kind, rx);
    let group = Group { key, weights: seq![weight] };
    let counted = Group { key: literal, weights: seq![Expr::one()] };
    assert(folded =~= empty.push(rx).push(literal));
    lemma_group_terms_push(kind, empty, rx);
    lemma_group_terms_push(kind, empty.push(rx), literal);
    assert(group_terms(kind, empty.push(rx)) =~= seq![group]);
    lemma_add_weight_absent(seq![group], literal, Expr::one());
    assert(group_terms(kind, folded) =~= seq![group, counted]) by {
        assert(seq![group].push(counted) =~= seq![group, counted]);
    }
    // each gives one term
    assert(seq![weight] =~= empty.push(weight));
    lemma_collapse_parts_push(empty, weight, VarOpKind::Add);
    assert(collapse(seq![weight], VarOpKind::Add).len() == 1);
    assert(recombine(kind, group) is Some);
    lemma_recombine_counted_once(kind, literal);
    let groups = Seq::<Group>::empty();
    assert(seq![group, counted] =~= groups.push(group).push(counted));
    lemma_recombine_all_push(kind, groups, group);
    lemma_recombine_all_push(kind, groups.push(group), counted);
    assert(recombine_all(kind, seq![group, counted]) =~= seq![recombine(kind, group)->0, literal]);
}


impl Expr {
    /// Arithmetic over literals: a literal, or a sum, product or inverse of
    /// such.  This is what `add`, `sub`, `mul` and `div` build from
    /// literals.
    pub open spec fn is_arithmetic(self) -> bool
        decreases self,
    {
        match self {
            Expr::Num { .. } => true,
            Expr::Inverse(a) => a.is_arithmetic(),
            Expr::VarOp { children, .. } => forall|i: int|
                0 <= i < children.len() ==> (#[trigger] children[i]).is_arithmetic(),
            _ => false,
        }
    }

    /// The tree holds no operator node.
    pub open spec fn is_operator_free(self) -> bool
        decreases self,
    {
        match self {
            Expr::Const(_) => true,
            Expr::Num { .. } => true,
            Expr::Inverse(a) => a.is_operator_free(),
            Expr::VarOp { .. } => false,
            Expr::Exp(a, b) => a.is_operator_free() && b.is_operator_free(),
            Expr::Trig(_, a) => a.is_operator_free(),
        }
    }

    /// Every operator node of the tree stands over arithmetic on literals
    /// alone; constants, powers and functions occur only outside operators.
    pub open spec fn has_literal_operators(self) -> bool
        decreases self,
    {
        match self {
            Expr::Const(_) => true,
            Expr::Num { .. } => true,
            Expr::Inverse(a) => a.has_literal_operators(),
            Expr::VarOp { .. } => self.is_arithmetic(),
            Expr::Exp(a, b) => a.has_literal_operators() && b.has_literal_operators(),
            Expr::Trig(_, a) => a.has_literal_operators(),
        }
    }
}

/// Every member of the sequence is arithmetic over literals.
pub open spec fn all_arithmetic(s: Seq<Expr>) -> bool {
    forall|i: int| 0 <= i < s.len() ==> (#[trigger] s[i]).is_arithmetic()
}

/// Every member of the sequence is a literal.
pub open spec fn all_literals(s: Seq<Expr>) -> bool {
    forall|i: int| 0 <= i < s.len() ==> (#[trigger] s[i]) is Num
}

/// The members of a sequence without its last member.
proof fn lemma_all_arithmetic_front(s: Seq<Expr>)
    requires
        all_arithmetic(s),
        s.len() > 0,
    ensures
        all_arithmetic(s.drop_last()),
        s.last().is_arithmetic(),
{
    let p = s.drop_last();
    assert forall|i: int| 0 <= i < p.len() implies (#[trigger] p[i]).is_arithmetic() by {
        assert(p[i] == s[i]);
    }
    assert(s.last() == s[s.len() - 1]);
}

/// Flattening keeps arithmetic arithmetic.
pub proof fn lemma_flatten_arithmetic(s: Seq<Expr>, kind: VarOpKind)
    requires
        all_arithmetic(s),
    ensures
        all_arithmetic(flatten(s, kind)),
{
    lemma_flatten_preserves(s, kind, |e: Expr| e.is_arithmetic());
}

/// An operator over literals alone folds them into one literal.
pub proof fn lemma_combine_literals(kind: VarOpKind, operands: Seq<Expr>)
    requires
        all_literals(operands),
    ensures
        combine_operands(kind, operands) == (Expr::Num {
            val: folded_value(operands, kind),
            input_base: folded_base(operands),
        }),
{
    lemma_literals_collapse(operands, kind);
    if operands.len() > 0 {
        let literal = collapse(operands, kind)[0];
        let empty = Seq::<Expr>::empty();
        assert(collapse(operands, kind) =~= empty.push(literal));
        lemma_group_terms_push(kind, empty, literal);
        let group = Group { key: literal, weights: seq![Expr::one()] };
        assert(group_terms(kind, empty.push(literal)) =~= seq![group]);
        lemma_recombine_counted_once(kind, literal);
        let groups = Seq::<Group>::empty();
        assert(seq![group] =~= groups.push(group));
        lemma_recombine_all_push(kind, groups, group);
        assert(recombine_all(kind, seq![group]) =~= seq![literal]);
    } else {
        assert(collapse(operands, kind) =~= Seq::<Expr>::empty());
    }
}

/// Literals alone collapse to a single literal, or to nothing where there
/// are none.
proof fn lemma_literals_collapse(s: Seq<Expr>, kind: VarOpKind)
    requires
        all_literals(s),
    ensures
        non_numeric(s) == Seq::<Expr>::empty(),
        has_numeric(s) == (s.len() > 0),
        s.len() > 0 ==> collapse(s, kind).len() == 1 && collapse(s, kind)[0] is Num,
        s.len() == 0 ==> collapse(s, kind).len() == 0,
    decreases s.len(),
{
    if s.len() > 0 {
        let p = s.drop_last();
        assert forall|i: int| 0 <= i < p.len() implies (#[trigger] p[i]) is Num by {
            assert(p[i] == s[i]);
        }
        assert(s.last() == s[s.len() - 1]);
        lemma_literals_collapse(p, kind);
    }
}

/// Arithmetic over literals reduces to a literal, where it reduces at all.
pub proof fn lemma_arithmetic_reduces_to_literal(e: Expr)
    requires
        e.is_arithmetic(),
    ensures
        reduce(e) matches Some(r) ==> r is Num,
    decreases e.size(), 0nat,
{
    match e {
        Expr::Inverse(a) => {
            lemma_arithmetic_reduces_to_literal(*a);
        },
        Expr::VarOp { kind, children } => {
            lemma_flatten_size(children, kind);
            lemma_flatten_arithmetic(children, kind);
            lemma_arithmetic_seq_reduces_to_literals(flatten(children, kind));
            if let Some(operands) = reduce_seq(flatten(children, kind)) {
                lemma_combine_literals(kind, operands);
            }
        },
        _ => {},
    }
}

/// A sequence of arithmetic over literals reduces to literals, where it
/// reduces at all.
pub proof fn lemma_arithmetic_seq_reduces_to_literals(s: Seq<Expr>)
    requires
        all_arithmetic(s),
    ensures
        reduce_seq(s) matches Some(rs) ==> all_literals(rs),
    decreases total_size(s), 1nat,
{
    if s.len() > 0 {
        lemma_all_arithmetic_front(s);
        lemma_size_positive(s.last());
        lemma_arithmetic_seq_reduces_to_literals(s.drop_last());
        lemma_arithmetic_reduces_to_literal(s.last());
        if let Some(rs) = reduce_seq(s) {
            let front = reduce_seq(s.drop_last())->0;
            assert forall|i: int| 0 <= i < rs.len() implies (#[trigger] rs[i]) is Num by {
                if i < front.len() {
                    assert(rs[i] == front[i]);
                }
            }
        }
    }
}

/// What the reduction of a tree with literal operators gives holds no
/// operator, and reduces to itself.
pub proof fn lemma_reduced_is_fixed(e: Expr)
    requires
        e.has_literal_operators(),
    ensures
        reduce(e) matches Some(r) ==> r.is_operator_free() && reduce(r) == Some(r),
    decreases e,
{
    match e {
        Expr::Const(_) => {},
        Expr::Num { .. } => {},
        Expr::Inverse(a) => {
            lemma_reduced_is_fixed(*a);
        },
        Expr::VarOp { .. } => {
            lemma_arithmetic_reduces_to_literal(e);
        },
        Expr::Exp(a, b) => {
            lemma_reduced_is_fixed(*a);
            lemma_reduced_is_fixed(*b);
            assert(reduce(Expr::one()) == Some(Expr::one()));
        },
        Expr::Trig(kind, a) => {
            lemma_reduced_is_fixed(*a);
            if let Some(inner) = reduce(*a) {
                let r = reduce_trig(kind, inner);
                assert(reduce(r) == Some(r));
            }
        },
    }
}

/// Idempotence: reducing a reduced expression changes nothing.  This holds
/// for every expression whose operators stand over arithmetic on literals
/// alone, and so for every expression without operators.
pub proof fn lemma_reduce_idempotent(e: Expr)
    requires
        e.has_literal_operators(),
        reduce(e) is Some,
    ensures
        reduce(reduce(e)->0) == reduce(e),
{
    lemma_reduced_is_fixed(e);
}

/// A tree without operators has literal operators.
pub proof fn lemma_operator_free_has_literal_operators(e: Expr)
    requires
        e.is_operator_free(),
    ensures
        e.has_literal_operators(),
    decreases e,
{
    match e {
        Expr::Inverse(a) => lemma_operator_free_has_literal_operators(*a),
        Expr::Exp(a, b) => {
            lemma_operator_free_has_literal_operators(*a);
            lemma_operator_free_has_literal_operators(*b);
        },
        Expr::Trig(_, a) => lemma_operator_free_has_literal_operators(*a),
        _ => {},
    }
}


/// No two groups share a key.
pub open spec fn keys_distinct(groups: Seq<Group>) -> bool {
    forall|i: int, j: int| 0 <= i < j < groups.len() ==> groups[i].key != groups[j].key
}

/// Every group holds at least one weight.
pub open spec fn weights_present(groups: Seq<Group>) -> bool {
    forall|i: int| 0 <= i < groups.len() ==> (#[trigger] groups[i]).weights.len() > 0
}

/// Adding a weight leaves every key in its place, and appends the new key
/// exactly where no group had it.
pub proof fn lemma_add_weight_keys(groups: Seq<Group>, key: Expr, weight: Expr)
    ensures
        ({
            let out = add_weight(groups, key, weight);
            &&& forall|i: int| 0 <= i < groups.len() ==> (#[trigger] out[i]).key == groups[i].key
            &&& forall|i: int|
                0 <= i < groups.len() ==> (#[trigger] out[i]).weights.len()
                    >= groups[i].weights.len()
            &&& if exists|i: int| 0 <= i < groups.len() && groups[i].key == key {
                out.len() == groups.len()
            } else {
                out.len() == groups.len() + 1 && out.last().key == key
                    && out.last().weights.len() == 1
            }
        }),
    decreases groups.len(),
{
    let out = add_weight(groups, key, weight);
    if groups.len() == 0 {
    } else if groups[0].key == key {
    } else {
        let rest = groups.drop_first();
        let tail = add_weight(rest, key, weight);
        lemma_add_weight_keys(rest, key, weight);
        assert forall|i: int| 0 <= i < groups.len() implies (#[trigger] out[i]).key
            == groups[i].key && out[i].weights.len() >= groups[i].weights.len() by {
            if i > 0 {
                assert(out[i] == tail[i - 1]);
                assert(rest[i - 1] == groups[i]);
            }
        }
        if exists|i: int| 0 <= i < groups.len() && groups[i].key == key {
            let i = choose|i: int| 0 <= i < groups.len() && groups[i].key == key;
            assert(rest[i - 1].key == key);
        } else {
            assert forall|i: int| 0 <= i < rest.len() implies rest[i].key != key by {
                assert(rest[i] == groups[i + 1]);
            }
            assert(out.last() == tail.last());
        }
    }
}

/// Grouping puts every key in one group only, and no group is empty: the
/// groups are a mapping from keys to the weights found for them.
pub proof fn lemma_groups_are_a_mapping(kind: VarOpKind, s: Seq<Expr>)
    ensures
        keys_distinct(group_terms(kind, s)),
        weights_present(group_terms(kind, s)),
    decreases s.len(),
{
    if s.len() > 0 {
        let before = group_terms(kind, s.drop_last());
        let (key, weight) = split_term(kind, s.last());
        lemma_groups_are_a_mapping(kind, s.drop_last());
        lemma_add_weight_keys(before, key, weight);
        let out = add_weight(before, key, weight);
        assert forall|i: int, j: int| 0 <= i < j < out.len() implies out[i].key != out[j].key by {
            if j < before.len() {
                assert(out[i].key == before[i].key);
                assert(out[j].key == before[j].key);
            } else {
                assert(out[i].key == before[i].key);
            }
        }
        assert forall|i: int| 0 <= i < out.len() implies (#[trigger] out[i]).weights.len() > 0 by {
            if i < before.len() {
                assert(out[i].weights.len() >= before[i].weights.len());
            }
        }
    }
}

impl Expr {
    /// The tree holds no inverse.
    pub open spec fn is_inverse_free(self) -> bool
        decreases self,
    {
        match self {
            Expr::Const(_) => true,
            Expr::Num { .. } => true,
            Expr::Inverse(_) => false,
            Expr::VarOp { children, .. } => forall|i: int|
                0 <= i < children.len() ==> (#[trigger] children[i]).is_inverse_free(),
            Expr::Exp(a, b) => a.is_inverse_free() && b.is_inverse_free(),
            Expr::Trig(_, a) => a.is_inverse_free(),
        }
    }
}

/// Every member of the sequence holds no inverse.
pub open spec fn all_inverse_free(s: Seq<Expr>) -> bool {
    forall|i: int| 0 <= i < s.len() ==> (#[trigger] s[i]).is_inverse_free()
}

/// Flattening brings in no inverse.
pub proof fn lemma_flatten_inverse_free(s: Seq<Expr>, kind: VarOpKind)
    requires
        all_inverse_free(s),
    ensures
        all_inverse_free(flatten(s, kind)),
{
    lemma_flatten_preserves(s, kind, |e: Expr| e.is_inverse_free());
}

/// Reduction succeeds on every expression without an inverse: only the
/// inverse of a literal zero makes it fail.
pub proof fn lemma_reduce_succeeds_without_inverse(e: Expr)
    requires
        e.is_inverse_free(),
    ensures
        reduce(e) is Some,
    decreases e.size(), 0nat,
{
    match e {
        Expr::VarOp { kind, children } => {
            lemma_flatten_size(children, kind);
            lemma_flatten_inverse_free(children, kind);
            lemma_reduce_seq_succeeds_without_inverse(flatten(children, kind));
        },
        Expr::Exp(a, b) => {
            lemma_reduce_succeeds_without_inverse(*a);
            lemma_reduce_succeeds_without_inverse(*b);
        },
        Expr::Trig(_, a) => {
            lemma_reduce_succeeds_without_inverse(*a);
        },
        _ => {},
    }
}

/// Reduction succeeds on every sequence of expressions without an inverse.
pub proof fn lemma_reduce_seq_succeeds_without_inverse(s: Seq<Expr>)
    requires
        all_inverse_free(s),
    ensures
        reduce_seq(s) is Some,
    decreases total_size(s), 1nat,
{
    if s.len() > 0 {
        let p = s.drop_last();
        assert forall|i: int| 0 <= i < p.len() implies (#[trigger] p[i]).is_inverse_free() by {
            assert(p[i] == s[i]);
        }
        assert(s.last() == s[s.len() - 1]);
        lemma_size_positive(s.last());
        lemma_reduce_seq_succeeds_without_inverse(p);
        lemma_reduce_succeeds_without_inverse(s.last());
    }
}

} // verus!
