//! The display-base hint: which numeral base an output layer should prefer
//! for the value of an expression.  Literals carry the base they were
//! written in; operators fold the hints of their operands.

use crate::expr::Expr;
use crate::node::{models, Node};
use vstd::prelude::*;

verus! {

/// The hint of two operands together.  A lone hint wins; decimal yields to
/// any other base; binary wins over every other base; otherwise the first
/// operand's base stays.
pub open spec fn combine_base(a: Option<u32>, b: Option<u32>) -> Option<u32> {
    match (a, b) {
        (None, None) => None,
        (Some(x), None) => Some(x),
        (None, Some(y)) => Some(y),
        (Some(x), Some(y)) => if x == 10 {
            Some(y)
        } else if y == 10 {
            Some(x)
        } else if x == 2 || y == 2 {
            Some(2)
        } else {
            Some(x)
        },
    }
}

/// The hints of a sequence of expressions folded from the left, starting
/// from no hint.
pub open spec fn fold_bases(s: Seq<Expr>) -> Option<u32>
    decreases s,
{
    if s.len() == 0 {
        None
    } else {
        combine_base(fold_bases(s.drop_last()), display_base(s.last()))
    }
}

/// The display-base hint of an expression.
pub open spec fn display_base(e: Expr) -> Option<u32>
    decreases e,
{
    match e {
        Expr::Const(_) => None,
        Expr::Num { input_base, .. } => input_base,
        Expr::Inverse(a) => display_base(*a),
        Expr::VarOp { children, .. } => fold_bases(children),
        Expr::Exp(a, b) => combine_base(display_base(*a), display_base(*b)),
        Expr::Trig(_, a) => display_base(*a),
    }
}

/// Folding is the same whichever way two hints are grouped with a third.
pub proof fn lemma_combine_base_associative(a: Option<u32>, b: Option<u32>, c: Option<u32>)
    ensures
        combine_base(combine_base(a, b), c) == combine_base(a, combine_base(b, c)),
{
}

/// Binary wins over every base, and decimal over none.
pub proof fn lemma_combine_base_preferences(a: Option<u32>, b: Option<u32>)
    ensures
        a == Some(2u32) || b == Some(2u32) ==> combine_base(a, b) == Some(2u32),
        a == Some(10u32) && b is Some ==> combine_base(a, b) == b,
        b == Some(10u32) && a is Some ==> combine_base(a, b) == a,
        combine_base(a, None) == a,
        combine_base(None, b) == b,
{
}

impl Node {
    /// The hint of two operands together.
    pub fn get_op_result_base(a_base: Option<u32>, b_base: Option<u32>) -> (r: Option<u32>)
        ensures
            r == combine_base(a_base, b_base),
    {
        match (a_base, b_base) {
            (Some(val), None) => Some(val),
            (None, Some(val)) => Some(val),
            (None, None) => None,
            (Some(a), Some(b)) => {
                if a == 10 {
                    Some(b)
                } else if b == 10 {
                    Some(a)
                } else if a == 2 || b == 2 {
                    Some(2)
                } else {
                    Some(a)
                }
            },
        }
    }

    /// The display-base hint of the tree: that of its literals, folded
    /// through every operator from left to right.
    #[verifier::loop_isolation(false)]
    pub fn display_base(&self) -> (r: Option<u32>)
        ensures
            r == display_base(self@),
        decreases self,
    {
        match self {
            Node::Const(_) => None,
            Node::Num { input_base, .. } => *input_base,
            Node::Inverse(inner) => inner.display_base(),
            Node::VarOp { kind, children } => {
                proof {
                    Node::lemma_model_children(*kind, *children);
                }
                let ghost all = models(children@);
                let mut result: Option<u32> = None;
                let mut i: usize = 0;
                while i < children.len()
                    invariant
                        i <= children.len(),
                        result == fold_bases(all.take(i as int)),
                    decreases children.len() - i,
                {
                    let child = children[i].display_base();
                    proof {
                        assert(all.take(i + 1).drop_last() =~= all.take(i as int));
                    }
                    result = Node::get_op_result_base(result, child);
                    i += 1;
                }
                proof {
                    assert(all.take(children.len() as int) =~= all);
                }
                result
            },
            Node::Exp(a, b) => {
                let a = a.display_base();
                let b = b.display_base();
                Node::get_op_result_base(a, b)
            },
            Node::Sin(inner) => inner.display_base(),
            Node::Cos(inner) => inner.display_base(),
            Node::Tan(inner) => inner.display_base(),
        }
    }
}

} // verus!
