//! The expression tree and its constructors.

use crate::expr::{ConstKind, Expr, TrigKind, VarOpKind};
use crate::rational::Rational;
use vstd::prelude::*;

verus! {

/// One node of an expression tree; each node owns its operands.
#[derive(Debug, PartialEq, Eq, Hash)]
pub enum Node {
    Const(ConstKind),
    Num {
        /// The number that the node stands for.
        val: Rational,
        /// The base in which the number was written, where it was written
        /// by a user.
        input_base: Option<u32>,
    },
    Inverse(Box<Node>),
    VarOp { kind: VarOpKind, children: Vec<Node> },
    Exp(Box<Node>, Box<Node>),
    Sin(Box<Node>),
    Cos(Box<Node>),
    Tan(Box<Node>),
}

impl Node {
    /// The expression that the tree denotes.
    pub open spec fn model(&self) -> Expr
        decreases self,
    {
        match self {
            Node::Const(kind) => Expr::Const(*kind),
            Node::Num { val, input_base } => Expr::Num { val: val@, input_base: *input_base },
            Node::Inverse(a) => Expr::Inverse(Box::new(a.model())),
            Node::VarOp { kind, children } => Expr::VarOp {
                kind: *kind,
                children: Seq::new(
                    children@.len(),
                    |i: int|
                        if 0 <= i < children@.len() {
                            children@[i].model()
                        } else {
                            Expr::zero()
                        },
                ),
            },
            Node::Exp(a, b) => Expr::Exp(Box::new(a.model()), Box::new(b.model())),
            Node::Sin(a) => Expr::Trig(TrigKind::Sin, Box::new(a.model())),
            Node::Cos(a) => Expr::Trig(TrigKind::Cos, Box::new(a.model())),
            Node::Tan(a) => Expr::Trig(TrigKind::Tan, Box::new(a.model())),
        }
    }
}

/// The expressions that a sequence of trees denotes, one for one.
pub open spec fn models(s: Seq<Node>) -> Seq<Expr> {
    Seq::new(s.len(), |i: int| s[i].model())
}

/// The expressions that a sequence of borrowed trees denotes.
pub open spec fn ref_models(s: Seq<&Node>) -> Seq<Expr> {
    Seq::new(s.len(), |i: int| s[i].model())
}

/// Appending one borrowed tree appends its model.
pub proof fn lemma_ref_models_push(s: Seq<&Node>, x: &Node)
    ensures
        ref_models(s.push(x)) == ref_models(s).push(x.model()),
{
    assert(ref_models(s.push(x)) =~= ref_models(s).push(x.model()));
}

/// Appending one tree appends its model.
pub proof fn lemma_models_push(s: Seq<Node>, x: Node)
    ensures
        models(s.push(x)) == models(s).push(x.model()),
{
    assert(models(s.push(x)) =~= models(s).push(x.model()));
}

impl VarOpKind {
    /// The operator's neutral element as an exact rational.
    pub fn identity_bigr(self) -> (r: Rational)
        ensures
            r@ == self.identity(),
    {
        match self {
            VarOpKind::Add => Rational::zero(),
            VarOpKind::Mul => Rational::one(),
        }
    }

    /// The operator applied to two exact rationals.
    pub fn eval_bigr_fn(self, x: Rational, y: Rational) -> (r: Rational)
        ensures
            r@ == self.combine(x@, y@),
    {
        match self {
            VarOpKind::Add => x.plus(&y),
            VarOpKind::Mul => x.times(&y),
        }
    }

    /// `count` occurrences of `node` under the operator, as one tree:
    /// `node * count` for `Add`, `node ^ count` for `Mul`.
    pub fn compress(self, node: Node, count: Node) -> (r: Node)
        ensures
            r@ == self.compressed(node@, count@),
    {
        match self {
            VarOpKind::Add => Node::mul(node, count),
            VarOpKind::Mul => Node::Exp(Box::new(node), Box::new(count)),
        }
    }
}

impl Node {
    /// The children of an operator node denote the children of its model.
    pub proof fn lemma_model_children(kind: VarOpKind, children: Vec<Node>)
        ensures
            (Node::VarOp { kind, children }).model() == (Expr::VarOp {
                kind,
                children: models(children@),
            }),
    {
        let n = Node::VarOp { kind, children };
        assert(n.model()->VarOp_children =~= models(children@));
    }

    /// A deep copy of the tree.
    #[verifier::loop_isolation(false)]
    pub fn duplicate(&self) -> (r: Node)
        ensures
            r@ == self@,
        decreases self,
    {
        match self {
            Node::Const(kind) => Node::Const(*kind),
            Node::Num { val, input_base } => Node::Num { val: val.clone(), input_base: *input_base },
            Node::Inverse(a) => Node::Inverse(Box::new(a.duplicate())),
            Node::VarOp { kind, children } => {
                let mut copy: Vec<Node> = Vec::new();
                let mut i: usize = 0;
                while i < children.len()
                    invariant
                        i <= children.len(),
                        copy.len() == i,
                        forall|j: int| 0 <= j < i ==> copy@[j]@ == children@[j]@,
                    decreases children.len() - i,
                {
                    copy.push(children[i].duplicate());
                    i += 1;
                }
                proof {
                    assert(models(copy@) =~= models(children@));
                    Node::lemma_model_children(*kind, *children);
                    Node::lemma_model_children(*kind, copy);
                }
                Node::VarOp { kind: *kind, children: copy }
            },
            Node::Exp(a, b) => Node::Exp(Box::new(a.duplicate()), Box::new(b.duplicate())),
            Node::Sin(a) => Node::Sin(Box::new(a.duplicate())),
            Node::Cos(a) => Node::Cos(Box::new(a.duplicate())),
            Node::Tan(a) => Node::Tan(Box::new(a.duplicate())),
        }
    }

    /// Structural equality: the same variants with equal literals, base
    /// hints and operands, in order.
    #[verifier::loop_isolation(false)]
    pub fn equals(&self, other: &Node) -> (r: bool)
        ensures
            r == (self@ == other@),
        decreases self,
    {
        match (self, other) {
            (Node::Const(a), Node::Const(b)) => *a == *b,
            (
                Node::Num { val: a, input_base: base_a },
                Node::Num { val: b, input_base: base_b },
            ) => {
                let same_base = match (base_a, base_b) {
                    (Some(x), Some(y)) => *x == *y,
                    (None, None) => true,
                    _ => false,
                };
                same_base && a.equals(b)
            },
            (Node::Inverse(a), Node::Inverse(b)) => a.equals(b),
            (
                Node::VarOp { kind: kind_a, children: a },
                Node::VarOp { kind: kind_b, children: b },
            ) => {
                proof {
                    Node::lemma_model_children(*kind_a, *a);
                    Node::lemma_model_children(*kind_b, *b);
                }
                if !(*kind_a == *kind_b) {
                    return false;
                }
                if a.len() != b.len() {
                    assert(models(a@).len() != models(b@).len());
                    return false;
                }
                let mut i: usize = 0;
                while i < a.len()
                    invariant
                        i <= a.len(),
                        a.len() == b.len(),
                        forall|j: int| 0 <= j < i ==> a@[j]@ == b@[j]@,
                    decreases a.len() - i,
                {
                    if !a[i].equals(&b[i]) {
                        assert(models(a@)[i as int] != models(b@)[i as int]);
                        return false;
                    }
                    i += 1;
                }
                assert(models(a@) =~= models(b@));
                true
            },
            (Node::Exp(a, b), Node::Exp(c, d)) => a.equals(c) && b.equals(d),
            (Node::Sin(a), Node::Sin(b)) => a.equals(b),
            (Node::Cos(a), Node::Cos(b)) => a.equals(b),
            (Node::Tan(a), Node::Tan(b)) => a.equals(b),
            _ => false,
        }
    }

    /// The literal `0`.
    pub fn zero() -> (r: Node)
        ensures
            r@ == Expr::zero(),
    {
        Node::Num { val: Rational::zero(), input_base: None }
    }

    /// The literal `1`.
    pub fn one() -> (r: Node)
        ensures
            r@ == Expr::one(),
    {
        Node::Num { val: Rational::one(), input_base: None }
    }

    /// The literal `-1`.
    pub fn minus_one() -> (r: Node)
        ensures
            r@ == Expr::minus_one(),
    {
        Node::Num { val: Rational::minus_one(), input_base: None }
    }

    /// The sum `a + b`, an operator node with exactly these two operands.
    pub fn add(a: Node, b: Node) -> (r: Node)
        ensures
            r@ == Expr::sum(a@, b@),
    {
        Node::op(VarOpKind::Add, a, b)
    }

    /// The difference `a - b`, built as `a + -1 * b`.
    pub fn sub(a: Node, b: Node) -> (r: Node)
        ensures
            r@ == Expr::difference(a@, b@),
    {
        Node::add(a, Node::opposite(b))
    }

    /// The product `a * b`, an operator node with exactly these two operands.
    pub fn mul(a: Node, b: Node) -> (r: Node)
        ensures
            r@ == Expr::product(a@, b@),
    {
        Node::op(VarOpKind::Mul, a, b)
    }

    /// The quotient `a / b`, built as `a * 1/b`.
    pub fn div(a: Node, b: Node) -> (r: Node)
        ensures
            r@ == Expr::quotient(a@, b@),
    {
        Node::mul(a, Node::Inverse(Box::new(b)))
    }

    /// The operator `kind` applied to exactly `a` and `b`.
    pub fn op(kind: VarOpKind, a: Node, b: Node) -> (r: Node)
        ensures
            r@ == Expr::op(kind, a@, b@),
    {
        let mut children: Vec<Node> = Vec::new();
        children.push(a);
        children.push(b);
        proof {
            Node::lemma_model_children(kind, children);
            assert(models(children@) =~= seq![a@, b@]);
        }
        Node::VarOp { kind, children }
    }

    /// The opposite `-inner`, built as `-1 * inner`.
    pub fn opposite(inner: Node) -> (r: Node)
        ensures
            r@ == Expr::opposite(inner@),
    {
        Node::mul(Node::minus_one(), inner)
    }
}

impl Clone for Node {
    fn clone(&self) -> (r: Node)
        ensures
            r@ == self@,
    {
        self.duplicate()
    }
}

impl View for Node {
    type V = Expr;

    open spec fn view(&self) -> Expr {
        self.model()
    }
}

} // verus!
