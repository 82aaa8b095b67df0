//! The shape of reduced expressions: every operator node that a reduction
//! produces has at least two operands.

use crate::collapse::{collapse, non_numeric};
use crate::expr::{lemma_size_positive, total_size, Expr, VarOpKind};
use crate::flatten::{lemma_flatten_size, lemma_member_size, flatten};
use crate::reduce::{
    add_weight, assemble, combine_operands, group_terms, recombine, recombine_all, reduce,
    reduce_seq, split_term, Group,
};
use vstd::prelude::*;

verus! {

impl Expr {
    /// Every operator node of the tree has at least two operands.
    pub open spec fn is_shaped(self) -> bool
        decreases self,
    {
        match self {
            Expr::Const(_) => true,
            Expr::Num { .. } => true,
            Expr::Inverse(a) => a.is_shaped(),
            Expr::VarOp { children, .. } => children.len() >= 2 && forall|i: int|
                0 <= i < children.len() ==> (#[trigger] children[i]).is_shaped(),
            Expr::Exp(a, b) => a.is_shaped() && b.is_shaped(),
            Expr::Trig(_, a) => a.is_shaped(),
        }
    }
}

/// Every member of the sequence is shaped.
pub open spec fn all_shaped(s: Seq<Expr>) -> bool {
    forall|i: int| 0 <= i < s.len() ==> (#[trigger] s[i]).is_shaped()
}

/// Every group has a shaped key and shaped weights.
pub open spec fn groups_shaped(groups: Seq<Group>) -> bool {
    forall|i: int|
        0 <= i < groups.len() ==> (#[trigger] groups[i]).key.is_shaped() && all_shaped(
            groups[i].weights,
        )
}

/// Dropping the literals keeps the members shaped.
pub proof fn lemma_non_numeric_shaped(s: Seq<Expr>)
    requires
        all_shaped(s),
    ensures
        all_shaped(non_numeric(s)),
    decreases s.len(),
{
    if s.len() > 0 {
        let p = s.drop_last();
        assert(all_shaped(p)) by {
            assert forall|i: int| 0 <= i < p.len() implies (#[trigger] p[i]).is_shaped() by {
                assert(p[i] == s[i]);
            }
        }
        lemma_non_numeric_shaped(p);
        assert(s.last() == s[s.len() - 1]);
    }
}

/// Folding the literals keeps the members shaped.
pub proof fn lemma_collapse_shaped(s: Seq<Expr>, kind: VarOpKind)
    requires
        all_shaped(s),
    ensures
        all_shaped(collapse(s, kind)),
{
    lemma_non_numeric_shaped(s);
}

/// The key and the weight of a shaped operand are shaped.
pub proof fn lemma_split_shaped(kind: VarOpKind, child: Expr)
    requires
        child.is_shaped(),
    ensures
        split_term(kind, child).0.is_shaped(),
        split_term(kind, child).1.is_shaped(),
{
    match kind {
        VarOpKind::Add => match child {
            Expr::VarOp { kind: VarOpKind::Mul, children } => {
                if children.len() > 2 {
                    let rest = children.drop_first();
                    assert forall|i: int| 0 <= i < rest.len() implies (#[trigger] rest[i]).is_shaped() by {
                        assert(rest[i] == children[i + 1]);
                    }
                }
            },
            _ => {},
        },
        VarOpKind::Mul => {},
    }
}

/// Adding a shaped weight under a shaped key keeps the groups shaped.
pub proof fn lemma_add_weight_shaped(groups: Seq<Group>, key: Expr, weight: Expr)
    requires
        groups_shaped(groups),
        key.is_shaped(),
        weight.is_shaped(),
    ensures
        groups_shaped(add_weight(groups, key, weight)),
    decreases groups.len(),
{
    if groups.len() == 0 {
    } else if groups[0].key == key {
        let added = groups[0].weights.push(weight);
        assert(all_shaped(added)) by {
            assert forall|i: int| 0 <= i < added.len() implies (#[trigger] added[i]).is_shaped() by {
                if i < groups[0].weights.len() {
                    assert(added[i] == groups[0].weights[i]);
                }
            }
        }
    } else {
        let rest = groups.drop_first();
        assert(groups_shaped(rest)) by {
            assert forall|i: int| 0 <= i < rest.len() implies (#[trigger] rest[i]).key.is_shaped()
                && all_shaped(rest[i].weights) by {
                assert(rest[i] == groups[i + 1]);
            }
        }
        lemma_add_weight_shaped(rest, key, weight);
        let tail = add_weight(rest, key, weight);
        let out = seq![groups[0]] + tail;
        assert forall|i: int| 0 <= i < out.len() implies (#[trigger] out[i]).key.is_shaped()
            && all_shaped(out[i].weights) by {
            if i > 0 {
                assert(out[i] == tail[i - 1]);
            }
        }
    }
}

/// Grouping shaped operands gives shaped groups.
pub proof fn lemma_group_terms_shaped(kind: VarOpKind, s: Seq<Expr>)
    requires
        all_shaped(s),
    ensures
        groups_shaped(group_terms(kind, s)),
    decreases s.len(),
{
    if s.len() > 0 {
        let p = s.drop_last();
        assert(all_shaped(p)) by {
            assert forall|i: int| 0 <= i < p.len() implies (#[trigger] p[i]).is_shaped() by {
                assert(p[i] == s[i]);
            }
        }
        lemma_group_terms_shaped(kind, p);
        assert(s.last() == s[s.len() - 1]);
        lemma_split_shaped(kind, s.last());
        let (key, weight) = split_term(kind, s.last());
        lemma_add_weight_shaped(group_terms(kind, p), key, weight);
    }
}

/// A shaped group recombines to a shaped operand.
pub proof fn lemma_recombine_shaped(kind: VarOpKind, group: Group)
    requires
        group.key.is_shaped(),
        all_shaped(group.weights),
    ensures
        recombine(kind, group) matches Some(e) ==> e.is_shaped(),
{
    lemma_collapse_shaped(group.weights, VarOpKind::Add);
    let weights = collapse(group.weights, VarOpKind::Add);
    if weights.len() == 1 {
        assert(weights[0].is_shaped());
        let pair = seq![group.key, weights[0]];
        assert forall|i: int| 0 <= i < pair.len() implies (#[trigger] pair[i]).is_shaped() by {}
    } else if weights.len() > 1 {
        let sum = Expr::VarOp { kind: VarOpKind::Add, children: weights };
        assert(sum.is_shaped());
        let pair = seq![group.key, sum];
        assert forall|i: int| 0 <= i < pair.len() implies (#[trigger] pair[i]).is_shaped() by {}
    }
}

/// Shaped groups recombine to shaped operands.
pub proof fn lemma_recombine_all_shaped(kind: VarOpKind, groups: Seq<Group>)
    requires
        groups_shaped(groups),
    ensures
        all_shaped(recombine_all(kind, groups)),
    decreases groups.len(),
{
    if groups.len() > 0 {
        let p = groups.drop_last();
        assert(groups_shaped(p)) by {
            assert forall|i: int| 0 <= i < p.len() implies (#[trigger] p[i]).key.is_shaped()
                && all_shaped(p[i].weights) by {
                assert(p[i] == groups[i]);
            }
        }
        lemma_recombine_all_shaped(kind, p);
        assert(groups.last() == groups[groups.len() - 1]);
        lemma_recombine_shaped(kind, groups.last());
    }
}

/// Combining shaped operands gives a shaped expression.
pub proof fn lemma_combine_shaped(kind: VarOpKind, operands: Seq<Expr>)
    requires
        all_shaped(operands),
    ensures
        combine_operands(kind, operands).is_shaped(),
{
    lemma_collapse_shaped(operands, kind);
    lemma_group_terms_shaped(kind, collapse(operands, kind));
    lemma_recombine_all_shaped(kind, group_terms(kind, collapse(operands, kind)));
    let out = recombine_all(kind, group_terms(kind, collapse(operands, kind)));
    if out.len() == 1 {
        assert(out[0].is_shaped());
    }
}

/// Whatever a reduction gives is shaped: no operator node of it has fewer
/// than two operands.
pub proof fn lemma_reduce_shaped(e: Expr)
    ensures
        reduce(e) matches Some(r) ==> r.is_shaped(),
    decreases e.size(), 0nat,
{
    match e {
        Expr::Const(_) => {},
        Expr::Num { .. } => {},
        Expr::Inverse(a) => {
            lemma_reduce_shaped(*a);
        },
        Expr::VarOp { kind, children } => {
            lemma_flatten_size(children, kind);
            lemma_reduce_seq_shaped(flatten(children, kind));
            if let Some(operands) = reduce_seq(flatten(children, kind)) {
                lemma_combine_shaped(kind, operands);
            }
        },
        Expr::Exp(a, b) => {
            lemma_reduce_shaped(*a);
            lemma_reduce_shaped(*b);
        },
        Expr::Trig(_, a) => {
            lemma_reduce_shaped(*a);
        },
    }
}

/// Whatever the reduction of a sequence gives is shaped, member by member.
pub proof fn lemma_reduce_seq_shaped(s: Seq<Expr>)
    ensures
        reduce_seq(s) matches Some(rs) ==> all_shaped(rs),
    decreases total_size(s), 1nat,
{
    if s.len() > 0 {
        lemma_size_positive(s.last());
        lemma_reduce_seq_shaped(s.drop_last());
        lemma_reduce_shaped(s.last());
        if let Some(rs) = reduce_seq(s) {
            let front = reduce_seq(s.drop_last())->0;
            assert forall|i: int| 0 <= i < rs.len() implies (#[trigger] rs[i]).is_shaped() by {
                if i < front.len() {
                    assert(rs[i] == front[i]);
                }
            }
        }
    }
}

} // verus!
