//! Folding the literal numbers among the operands of an operator into one.

use crate::base::combine_base;
use crate::expr::{Expr, VarOpKind};
use crate::node::{lemma_models_push, models, Node};
use crate::rational::{Fraction, Rational};
use vstd::prelude::*;

verus! {

/// The members of `s` that are not literal numbers, in order.
pub open spec fn non_numeric(s: Seq<Expr>) -> Seq<Expr>
    decreases s.len(),
{
    if s.len() == 0 {
        Seq::empty()
    } else if s.last() is Num {
        non_numeric(s.drop_last())
    } else {
        non_numeric(s.drop_last()).push(s.last())
    }
}

/// Whether some member of `s` is a literal number.
pub open spec fn has_numeric(s: Seq<Expr>) -> bool
    decreases s.len(),
{
    s.len() > 0 && (s.last() is Num || has_numeric(s.drop_last()))
}

/// The literal numbers of `s` combined from the left under `kind`, starting
/// from the operator's neutral element.
pub open spec fn folded_value(s: Seq<Expr>, kind: VarOpKind) -> Fraction
    decreases s.len(),
{
    if s.len() == 0 {
        kind.identity()
    } else {
        match s.last() {
            Expr::Num { val, .. } => kind.combine(folded_value(s.drop_last(), kind), val),
            _ => folded_value(s.drop_last(), kind),
        }
    }
}

/// The base hints of the literal numbers of `s` folded from the left.
pub open spec fn folded_base(s: Seq<Expr>) -> Option<u32>
    decreases s.len(),
{
    if s.len() == 0 {
        None
    } else {
        match s.last() {
            Expr::Num { input_base, .. } => combine_base(folded_base(s.drop_last()), input_base),
            _ => folded_base(s.drop_last()),
        }
    }
}

/// The operands `s` with their literal numbers folded: the other operands
/// in place, then, where `s` held a literal, the one folded literal.
pub open spec fn collapse(s: Seq<Expr>, kind: VarOpKind) -> Seq<Expr> {
    if has_numeric(s) {
        non_numeric(s).push(
            Expr::Num { val: folded_value(s, kind), input_base: folded_base(s) },
        )
    } else {
        non_numeric(s)
    }
}

/// How the parts of a collapse change when one more operand is appended.
pub proof fn lemma_collapse_parts_push(s: Seq<Expr>, x: Expr, kind: VarOpKind)
    ensures
        non_numeric(s.push(x)) == if x is Num {
            non_numeric(s)
        } else {
            non_numeric(s).push(x)
        },
        has_numeric(s.push(x)) == (x is Num || has_numeric(s)),
        folded_value(s.push(x), kind) == match x {
            Expr::Num { val, .. } => kind.combine(folded_value(s, kind), val),
            _ => folded_value(s, kind),
        },
        folded_base(s.push(x)) == match x {
            Expr::Num { input_base, .. } => combine_base(folded_base(s), input_base),
            _ => folded_base(s),
        },
{
    assert(s.push(x).drop_last() =~= s);
}

/// The operands that are not literals keep their places.
pub proof fn lemma_non_numeric_members(s: Seq<Expr>)
    ensures
        non_numeric(s).len() <= s.len(),
        forall|i: int| 0 <= i < non_numeric(s).len() ==> !(#[trigger] non_numeric(s)[i] is Num),
        forall|i: int|
            0 <= i < non_numeric(s).len() ==> exists|j: int|
                0 <= j < s.len() && s[j] == #[trigger] non_numeric(s)[i],
        !has_numeric(s) ==> non_numeric(s) == s,
        s.len() > 0 ==> has_numeric(s) || non_numeric(s).len() > 0,
    decreases s.len(),
{
    if s.len() > 0 {
        let p = s.drop_last();
        lemma_non_numeric_members(p);
        assert forall|i: int| 0 <= i < non_numeric(s).len() implies exists|j: int|
            0 <= j < s.len() && s[j] == #[trigger] non_numeric(s)[i] by {
            if i < non_numeric(p).len() {
                let j = choose|j: int| 0 <= j < p.len() && p[j] == non_numeric(p)[i];
                assert(s[j] == non_numeric(s)[i]);
            } else {
                assert(s[s.len() - 1] == non_numeric(s)[i]);
            }
        }
        if !has_numeric(s) {
            assert(p.push(s.last()) =~= s);
        }
    }
}

/// Collapsing a non-empty list of operands leaves a non-empty list with at
/// most one literal, which stands last.
pub proof fn lemma_collapse_shape(s: Seq<Expr>, kind: VarOpKind)
    ensures
        s.len() > 0 ==> collapse(s, kind).len() > 0,
        collapse(s, kind).len() <= s.len(),
        forall|i: int|
            0 <= i < collapse(s, kind).len() - 1 ==> !(#[trigger] collapse(s, kind)[i] is Num),
    decreases s.len(),
{
    lemma_non_numeric_members(s);
    lemma_numeric_count(s);
}

/// A list with a literal has fewer other members than members.
pub proof fn lemma_numeric_count(s: Seq<Expr>)
    ensures
        has_numeric(s) ==> non_numeric(s).len() < s.len(),
        non_numeric(s).len() <= s.len(),
    decreases s.len(),
{
    if s.len() > 0 {
        lemma_numeric_count(s.drop_last());
    }
}

impl Node {
    /// The operands `nodes` with their literal numbers folded under `kind`
    /// into one literal, which is put last; the other operands keep their
    /// order.
    pub fn collapse_numbers(nodes: &Vec<Node>, kind: VarOpKind) -> (result: Vec<Node>)
        ensures
            models(result@) == collapse(models(nodes@), kind),
    {
        let ghost all = models(nodes@);
        let mut result: Vec<Node> = Vec::new();
        let mut number: Option<Rational> = None;
        let mut base: Option<u32> = None;
        let mut i: usize = 0;
        assert(models(result@) =~= non_numeric(all.take(0)));
        while i < nodes.len()
            invariant
                i <= nodes.len(),
                all == models(nodes@),
                models(result@) == non_numeric(all.take(i as int)),
                number is Some == has_numeric(all.take(i as int)),
                number is Some ==> number->0@ == folded_value(all.take(i as int), kind),
                number is None ==> folded_value(all.take(i as int), kind) == kind.identity(),
                base == folded_base(all.take(i as int)),
            decreases nodes.len() - i,
        {
            proof {
                assert(all.take(i + 1).drop_last() =~= all.take(i as int));
                assert(all.take(i + 1).last() == nodes@[i as int]@);
            }
            match &nodes[i] {
                Node::Num { val, input_base } => {
                    let left = match number {
                        Some(val) => val,
                        None => kind.identity_bigr(),
                    };
                    number = Some(kind.eval_bigr_fn(left, val.clone()));
                    base = Node::get_op_result_base(base, *input_base);
                },
                other => {
                    let copy = other.duplicate();
                    proof {
                        lemma_models_push(result@, copy);
                    }
                    result.push(copy);
                },
            }
            i += 1;
        }
        proof {
            assert(all.take(nodes.len() as int) =~= all);
        }
        if let Some(number) = number {
            let literal = Node::Num { val: number, input_base: base };
            proof {
                lemma_models_push(result@, literal);
            }
            result.push(literal);
        }
        result
    }
}

} // verus!
