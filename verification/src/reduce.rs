//! Reduction of an expression to its canonical form: operators flattened,
//! literals folded, like terms and like factors collected, trivial powers
//! and inverses of literals resolved, and trigonometric functions of
//! multiples of pi replaced by their exact values.

use crate::collapse::{collapse, lemma_non_numeric_members, non_numeric};
use crate::expr::{total_size, Expr, TrigKind, VarOpKind};
use crate::flatten::{flatten, flatten_refs, lemma_flatten_size, lemma_member_size};
use crate::node::{lemma_models_push, models, ref_models, Node};
use crate::pi::pi_multiplier;
use crate::rational::Fraction;
use crate::shape::lemma_reduce_seq_shaped;
use vstd::prelude::*;

verus! {

/// The operands of one kind that share a key, by the weights they carry:
/// the coefficients of a term, or the exponents of a factor.
pub struct Group {
    pub key: Expr,
    pub weights: Seq<Expr>,
}

/// An operand of `kind` split into what it is collected by and how much of
/// it there is, as `(key, weight)`.  In a sum, a product gives its first
/// factor as the weight and the rest as the key; in a product, a power gives
/// its exponent as the weight and its base as the key.  Anything else counts
/// once.
pub open spec fn split_term(kind: VarOpKind, child: Expr) -> (Expr, Expr) {
    match kind {
        VarOpKind::Add => match child {
            Expr::VarOp { kind: VarOpKind::Mul, children } => {
                if children.len() == 2 {
                    (children[1], children[0])
                } else if children.len() > 2 {
                    (
                        Expr::VarOp { kind: VarOpKind::Mul, children: children.drop_first() },
                        children[0],
                    )
                } else {
                    (child, Expr::one())
                }
            },
            _ => (child, Expr::one()),
        },
        VarOpKind::Mul => match child {
            Expr::Exp(a, b) => (*a, *b),
            _ => (child, Expr::one()),
        },
    }
}

/// A product of fewer than two factors.  Reduction never hands one on: an
/// operator that is left with fewer than two operands is replaced by its
/// operand or by its neutral element.
pub open spec fn is_short_product(e: Expr) -> bool {
    e matches Expr::VarOp { kind: VarOpKind::Mul, children } && children.len() < 2
}

/// No member of `s` is a product of fewer than two factors.
pub open spec fn no_short_product(s: Seq<Expr>) -> bool {
    forall|i: int| 0 <= i < s.len() ==> !is_short_product(#[trigger] s[i])
}

/// `groups` with one more weight for `key`: added to the group of that key
/// where there is one, otherwise in a new group at the end.
pub open spec fn add_weight(groups: Seq<Group>, key: Expr, weight: Expr) -> Seq<Group>
    decreases groups.len(),
{
    if groups.len() == 0 {
        seq![Group { key, weights: seq![weight] }]
    } else if groups[0].key == key {
        groups.update(0, Group { key, weights: groups[0].weights.push(weight) })
    } else {
        seq![groups[0]] + add_weight(groups.drop_first(), key, weight)
    }
}

/// The operands `s` of `kind` grouped by key.  Keys stand in the order of
/// their first occurrence, the weights of a key in the order of theirs.
pub open spec fn group_terms(kind: VarOpKind, s: Seq<Expr>) -> Seq<Group>
    decreases s.len(),
{
    if s.len() == 0 {
        Seq::empty()
    } else {
        let (key, weight) = split_term(kind, s.last());
        add_weight(group_terms(kind, s.drop_last()), key, weight)
    }
}

/// One group as a single operand of `kind`: the weights are summed as far
/// as they are literals; a weight of exactly one leaves the bare key, any
/// other weight compresses the key under `kind`.  A group without weights
/// gives nothing.
pub open spec fn recombine(kind: VarOpKind, group: Group) -> Option<Expr> {
    let weights = collapse(group.weights, VarOpKind::Add);
    if weights.len() == 0 {
        None
    } else if weights.len() == 1 {
        match weights[0] {
            Expr::Num { val, .. } if val == Fraction::one() => Some(group.key),
            _ => Some(kind.compressed(group.key, weights[0])),
        }
    } else {
        Some(kind.compressed(group.key, Expr::VarOp { kind: VarOpKind::Add, children: weights }))
    }
}

/// Every group as an operand, in order.
pub open spec fn recombine_all(kind: VarOpKind, groups: Seq<Group>) -> Seq<Expr>
    decreases groups.len(),
{
    if groups.len() == 0 {
        Seq::empty()
    } else {
        match recombine(kind, groups.last()) {
            Some(e) => recombine_all(kind, groups.drop_last()).push(e),
            None => recombine_all(kind, groups.drop_last()),
        }
    }
}

/// The operator `kind` over `operands`, without an operator node where
/// there are fewer than two: none gives the neutral element, one gives
/// itself.
pub open spec fn assemble(kind: VarOpKind, operands: Seq<Expr>) -> Expr {
    if operands.len() == 0 {
        Expr::Num { val: kind.identity(), input_base: None }
    } else if operands.len() == 1 {
        operands[0]
    } else {
        Expr::VarOp { kind, children: operands }
    }
}

/// The reduced form of the operator `kind` over operands that are reduced
/// already and hold no operator of the same kind.
pub open spec fn combine_operands(kind: VarOpKind, operands: Seq<Expr>) -> Expr {
    assemble(kind, recombine_all(kind, group_terms(kind, collapse(operands, kind))))
}

/// The reduced form of a power with reduced base and exponent: one to any
/// power is one, and so is anything to the power zero.
pub open spec fn reduce_exp(base: Expr, exponent: Expr) -> Expr {
    if base matches Expr::Num { val, .. } && val == Fraction::one() {
        Expr::one()
    } else if exponent matches Expr::Num { val, .. } && val.num == 0 {
        Expr::one()
    } else {
        Expr::Exp(Box::new(base), Box::new(exponent))
    }
}

/// The reduced form of the inverse of a reduced operand: the reciprocal of
/// a literal, with its base hint; nothing for the literal zero.
pub open spec fn reduce_inverse(inner: Expr) -> Option<Expr> {
    match inner {
        Expr::Num { val, input_base } => {
            if val.num == 0 {
                None
            } else {
                Some(Expr::Num { val: val.reciprocal(), input_base })
            }
        },
        _ => Some(Expr::Inverse(Box::new(inner))),
    }
}

/// The value that a trigonometric function is given at `k` times pi.
pub open spec fn trig_at_multiple(kind: TrigKind, k: int) -> Expr {
    if k % 2 == 0 {
        match kind {
            TrigKind::Sin => Expr::zero(),
            TrigKind::Cos => Expr::one(),
            TrigKind::Tan => Expr::zero(),
        }
    } else {
        match kind {
            TrigKind::Sin => Expr::one(),
            TrigKind::Cos => Expr::minus_one(),
            TrigKind::Tan => Expr::zero(),
        }
    }
}

/// The reduced form of a trigonometric function of a reduced argument.
pub open spec fn reduce_trig(kind: TrigKind, inner: Expr) -> Expr {
    match pi_multiplier(inner) {
        Some(k) => trig_at_multiple(kind, k),
        None => Expr::Trig(kind, Box::new(inner)),
    }
}

/// The reduced form of an expression; nothing where the reduction meets the
/// inverse of a literal zero.
pub open spec fn reduce(e: Expr) -> Option<Expr>
    decreases e.size(), 0nat,
{
    match e {
        Expr::Const(_) => Some(e),
        Expr::Num { .. } => Some(e),
        Expr::Inverse(a) => match reduce(*a) {
            Some(inner) => reduce_inverse(inner),
            None => None,
        },
        Expr::VarOp { kind, children } => {
            proof {
                lemma_flatten_size(children, kind);
            }
            match reduce_seq(flatten(children, kind)) {
                Some(operands) => Some(combine_operands(kind, operands)),
                None => None,
            }
        },
        Expr::Exp(a, b) => match (reduce(*a), reduce(*b)) {
            (Some(base), Some(exponent)) => Some(reduce_exp(base, exponent)),
            _ => None,
        },
        Expr::Trig(kind, a) => match reduce(*a) {
            Some(inner) => Some(reduce_trig(kind, inner)),
            None => None,
        },
    }
}

/// The reduced forms of the members of `s`; nothing where one of them has
/// none.
pub open spec fn reduce_seq(s: Seq<Expr>) -> Option<Seq<Expr>>
    decreases total_size(s), 1nat,
{
    if s.len() == 0 {
        Some(Seq::empty())
    } else {
        match (reduce_seq(s.drop_last()), reduce(s.last())) {
            (Some(front), Some(last)) => Some(front.push(last)),
            _ => None,
        }
    }
}


/// The reduction of a sequence with one more member.
pub proof fn lemma_reduce_seq_push(s: Seq<Expr>, x: Expr)
    ensures
        reduce_seq(s.push(x)) == match (reduce_seq(s), reduce(x)) {
            (Some(front), Some(last)) => Some(front.push(last)),
            _ => None,
        },
{
    assert(s.push(x).drop_last() =~= s);
}

/// The groups of a sequence with one more operand.
pub proof fn lemma_group_terms_push(kind: VarOpKind, s: Seq<Expr>, x: Expr)
    ensures
        group_terms(kind, s.push(x)) == add_weight(
            group_terms(kind, s),
            split_term(kind, x).0,
            split_term(kind, x).1,
        ),
{
    assert(s.push(x).drop_last() =~= s);
}

/// The operands of a sequence of groups with one more group.
pub proof fn lemma_recombine_all_push(kind: VarOpKind, groups: Seq<Group>, group: Group)
    ensures
        recombine_all(kind, groups.push(group)) == match recombine(kind, group) {
            Some(e) => recombine_all(kind, groups).push(e),
            None => recombine_all(kind, groups),
        },
{
    assert(groups.push(group).drop_last() =~= groups);
}

/// Once a member has no reduced form, the whole sequence has none.
pub proof fn lemma_reduce_seq_fails(s: Seq<Expr>, n: int)
    requires
        0 <= n <= s.len(),
        reduce_seq(s.take(n)) is None,
    ensures
        reduce_seq(s) is None,
    decreases s.len() - n,
{
    if n < s.len() {
        assert(s.take(n + 1).drop_last() =~= s.take(n));
        lemma_reduce_seq_fails(s, n + 1);
    } else {
        assert(s.take(n) =~= s);
    }
}

/// Adding a weight to the group at `index`, the first with the key, changes
/// that group alone.
pub proof fn lemma_add_weight_found(groups: Seq<Group>, key: Expr, weight: Expr, index: int)
    requires
        0 <= index < groups.len(),
        groups[index].key == key,
        forall|k: int| 0 <= k < index ==> groups[k].key != key,
    ensures
        add_weight(groups, key, weight) == groups.update(
            index,
            Group { key, weights: groups[index].weights.push(weight) },
        ),
    decreases index,
{
    if index > 0 {
        let rest = groups.drop_first();
        assert forall|k: int| 0 <= k < index - 1 implies rest[k].key != key by {
            assert(rest[k] == groups[k + 1]);
        }
        lemma_add_weight_found(rest, key, weight, index - 1);
        assert(seq![groups[0]] + rest.update(
            index - 1,
            Group { key, weights: rest[index - 1].weights.push(weight) },
        ) =~= groups.update(index, Group { key, weights: groups[index].weights.push(weight) }));
    }
}

/// Adding a weight for a key that no group has appends a group.
pub proof fn lemma_add_weight_absent(groups: Seq<Group>, key: Expr, weight: Expr)
    requires
        forall|k: int| 0 <= k < groups.len() ==> groups[k].key != key,
    ensures
        add_weight(groups, key, weight) == groups.push(Group { key, weights: seq![weight] }),
    decreases groups.len(),
{
    if groups.len() > 0 {
        let rest = groups.drop_first();
        assert forall|k: int| 0 <= k < rest.len() implies rest[k].key != key by {
            assert(rest[k] == groups[k + 1]);
        }
        lemma_add_weight_absent(rest, key, weight);
        assert(seq![groups[0]] + rest.push(Group { key, weights: seq![weight] }) =~= groups.push(
            Group { key, weights: seq![weight] },
        ));
    } else {
        assert(seq![Group { key, weights: seq![weight] }] =~= groups.push(
            Group { key, weights: seq![weight] },
        ));
    }
}

/// Folding the literals brings in no product of fewer than two factors.
pub proof fn lemma_collapse_no_short_product(s: Seq<Expr>, kind: VarOpKind)
    requires
        no_short_product(s),
    ensures
        no_short_product(collapse(s, kind)),
{
    lemma_non_numeric_members(s);
    let out = collapse(s, kind);
    assert forall|i: int| 0 <= i < out.len() implies !is_short_product(#[trigger] out[i]) by {
        if i < non_numeric(s).len() {
            let j = choose|j: int| 0 <= j < s.len() && s[j] == non_numeric(s)[i];
            assert(out[i] == s[j]);
        }
    }
}

/// Why a reduction gave no result.
#[derive(Debug, PartialEq, Eq, Structural, Hash, Clone, Copy)]
pub enum ReduceError {
    /// The expression holds the inverse of a literal zero.
    DivisionByZero,
}

/// The operands of one kind that share a key, by the weights they carry.
pub struct TermGroup {
    pub key: Node,
    pub weights: Vec<Node>,
}

impl View for TermGroup {
    type V = Group;

    open spec fn view(&self) -> Group {
        Group { key: self.key@, weights: models(self.weights@) }
    }
}

/// The groups that a sequence of term groups denotes, one for one.
pub open spec fn group_models(s: Seq<TermGroup>) -> Seq<Group> {
    Seq::new(s.len(), |i: int| s[i]@)
}

impl Node {
    /// An operand of `kind` split into its key and its weight.  A term of a
    /// sum may not be a product of fewer than two factors.
    pub fn split_term(kind: VarOpKind, child: &Node) -> (r: (Node, Node))
        requires
            kind == VarOpKind::Add ==> !is_short_product(child@),
        ensures
            (r.0@, r.1@) == split_term(kind, child@),
    {
        match kind {
            VarOpKind::Add => match child {
                Node::VarOp { kind: VarOpKind::Mul, children: sub_children } => {
                    proof {
                        Node::lemma_model_children(VarOpKind::Mul, *sub_children);
                    }
                    if sub_children.len() == 2 {
                        (sub_children[1].duplicate(), sub_children[0].duplicate())
                    } else if sub_children.len() > 2 {
                        let first = sub_children[0].duplicate();
                        let mut rest: Vec<Node> = Vec::new();
                        let mut i: usize = 1;
                        assert(models(rest@) =~= models(sub_children@).subrange(1, 1));
                        while i < sub_children.len()
                            invariant
                                1 <= i <= sub_children.len(),
                                models(rest@) == models(sub_children@).subrange(1, i as int),
                            decreases sub_children.len() - i,
                        {
                            let copy = sub_children[i].duplicate();
                            proof {
                                lemma_models_push(rest@, copy);
                                assert(models(sub_children@).subrange(1, i + 1) =~= models(
                                    sub_children@,
                                ).subrange(1, i as int).push(copy@));
                            }
                            rest.push(copy);
                            i += 1;
                        }
                        proof {
                            assert(models(sub_children@).subrange(1, sub_children.len() as int)
                                =~= models(sub_children@).drop_first());
                            Node::lemma_model_children(VarOpKind::Mul, rest);
                        }
                        (Node::VarOp { kind: VarOpKind::Mul, children: rest }, first)
                    } else {
                        proof {
                            assert(is_short_product(child@));
                        }
                        unreached()
                    }
                },
                _ => (child.duplicate(), Node::one()),
            },
            VarOpKind::Mul => match child {
                Node::Exp(a, b) => (a.duplicate(), b.duplicate()),
                _ => (child.duplicate(), Node::one()),
            },
        }
    }

    /// Adds one weight for `key` to `groups`.
    pub fn add_weight(groups: &mut Vec<TermGroup>, key: Node, weight: Node)
        ensures
            group_models(final(groups)@) == add_weight(group_models(old(groups)@), key@, weight@),
    {
        let ghost before = group_models(groups@);
        let mut j: usize = 0;
        while j < groups.len()
            invariant
                j <= groups.len(),
                groups@ == old(groups)@,
                before == group_models(groups@),
                forall|k: int| 0 <= k < j ==> before[k].key != key@,
            decreases groups.len() - j,
        {
            if groups[j].key.equals(&key) {
                let mut group = groups.remove(j);
                proof {
                    lemma_models_push(group.weights@, weight);
                    lemma_add_weight_found(before, key@, weight@, j as int);
                }
                group.weights.push(weight);
                groups.insert(j, group);
                assert(group_models(groups@) =~= before.update(
                    j as int,
                    Group { key: key@, weights: before[j as int].weights.push(weight@) },
                ));
                return ;
            }
            j += 1;
        }
        let mut weights: Vec<Node> = Vec::new();
        proof {
            lemma_models_push(weights@, weight);
            lemma_add_weight_absent(before, key@, weight@);
        }
        weights.push(weight);
        assert(models(weights@) =~= seq![weight@]);
        groups.push(TermGroup { key, weights });
        assert(group_models(groups@) =~= before.push(Group { key: key@, weights: seq![weight@] }));
    }

    /// The operands of `kind` grouped by key.  No term of a sum may be a
    /// product of fewer than two factors.
    pub fn group_terms(kind: VarOpKind, operands: &Vec<Node>) -> (groups: Vec<TermGroup>)
        requires
            kind == VarOpKind::Add ==> no_short_product(models(operands@)),
        ensures
            group_models(groups@) == group_terms(kind, models(operands@)),
    {
        let ghost all = models(operands@);
        let mut groups: Vec<TermGroup> = Vec::new();
        let mut i: usize = 0;
        assert(group_models(groups@) =~= group_terms(kind, all.take(0)));
        while i < operands.len()
            invariant
                i <= operands.len(),
                all == models(operands@),
                kind == VarOpKind::Add ==> no_short_product(all),
                group_models(groups@) == group_terms(kind, all.take(i as int)),
            decreases operands.len() - i,
        {
            proof {
                assert(all.take(i + 1).drop_last() =~= all.take(i as int));
                assert(all.take(i + 1).last() == operands@[i as int]@);
                assert(all[i as int] == operands@[i as int]@);
            }
            let (key, weight) = Node::split_term(kind, &operands[i]);
            Node::add_weight(&mut groups, key, weight);
            i += 1;
        }
        proof {
            assert(all.take(operands.len() as int) =~= all);
        }
        groups
    }

    /// One group as a single operand of `kind`, if it has any weight.
    pub fn recombine(kind: VarOpKind, group: &TermGroup) -> (r: Option<Node>)
        ensures
            match r {
                Some(n) => recombine(kind, group@) == Some(n@),
                None => recombine(kind, group@) is None,
            },
    {
        let factors = Node::collapse_numbers(&group.weights, VarOpKind::Add);
        if factors.len() == 0 {
            None
        } else if factors.len() == 1 {
            match &factors[0] {
                Node::Num { val, .. } => {
                    if val.is_one() {
                        Some(group.key.duplicate())
                    } else {
                        Some(kind.compress(group.key.duplicate(), factors[0].duplicate()))
                    }
                },
                other => Some(kind.compress(group.key.duplicate(), other.duplicate())),
            }
        } else {
            proof {
                Node::lemma_model_children(VarOpKind::Add, factors);
            }
            Some(
                kind.compress(
                    group.key.duplicate(),
                    Node::VarOp { kind: VarOpKind::Add, children: factors },
                ),
            )
        }
    }

    /// Every group as an operand, in order.
    pub fn recombine_all(kind: VarOpKind, groups: &Vec<TermGroup>) -> (r: Vec<Node>)
        ensures
            models(r@) == recombine_all(kind, group_models(groups@)),
    {
        let ghost all = group_models(groups@);
        let mut result: Vec<Node> = Vec::new();
        let mut i: usize = 0;
        assert(models(result@) =~= recombine_all(kind, all.take(0)));
        while i < groups.len()
            invariant
                i <= groups.len(),
                all == group_models(groups@),
                models(result@) == recombine_all(kind, all.take(i as int)),
            decreases groups.len() - i,
        {
            proof {
                assert(all.take(i + 1).drop_last() =~= all.take(i as int));
                assert(all.take(i + 1).last() == groups@[i as int]@);
            }
            match Node::recombine(kind, &groups[i]) {
                Some(node) => {
                    proof {
                        lemma_models_push(result@, node);
                    }
                    result.push(node);
                },
                None => {},
            }
            i += 1;
        }
        proof {
            assert(all.take(groups.len() as int) =~= all);
        }
        result
    }

    /// The operator `kind` over `operands`, without an operator node where
    /// there are fewer than two.
    pub fn assemble(kind: VarOpKind, operands: Vec<Node>) -> (r: Node)
        ensures
            r@ == assemble(kind, models(operands@)),
    {
        if operands.len() == 0 {
            Node::Num { val: kind.identity_bigr(), input_base: None }
        } else if operands.len() == 1 {
            operands[0].duplicate()
        } else {
            proof {
                Node::lemma_model_children(kind, operands);
            }
            Node::VarOp { kind, children: operands }
        }
    }

    /// The reduced form of the operator `kind` over operands that are reduced
    /// already and hold no operator of the same kind.  No term of a sum may
    /// be a product of fewer than two factors.
    pub fn combine_operands(kind: VarOpKind, operands: &Vec<Node>) -> (r: Node)
        requires
            kind == VarOpKind::Add ==> no_short_product(models(operands@)),
        ensures
            r@ == combine_operands(kind, models(operands@)),
    {
        let children = Node::collapse_numbers(operands, kind);
        proof {
            if kind == VarOpKind::Add {
                lemma_collapse_no_short_product(models(operands@), kind);
            }
        }
        let groups = Node::group_terms(kind, &children);
        let compressed = Node::recombine_all(kind, &groups);
        Node::assemble(kind, compressed)
    }

    /// The reduced form of a power with reduced base and exponent.
    pub fn reduce_exp(base: Node, exponent: Node) -> (r: Node)
        ensures
            r@ == reduce_exp(base@, exponent@),
    {
        let base_is_one = match &base {
            Node::Num { val, .. } => val.is_one(),
            _ => false,
        };
        let exponent_is_zero = match &exponent {
            Node::Num { val, .. } => val.is_zero(),
            _ => false,
        };
        if base_is_one {
            Node::one()
        } else if exponent_is_zero {
            Node::one()
        } else {
            Node::Exp(Box::new(base), Box::new(exponent))
        }
    }

    /// The reduced form of the inverse of a reduced operand.
    pub fn reduce_inverse(inner: Node) -> (r: Result<Node, ReduceError>)
        ensures
            match r {
                Ok(n) => reduce_inverse(inner@) == Some(n@),
                Err(e) => e == ReduceError::DivisionByZero && reduce_inverse(inner@) is None,
            },
    {
        match inner {
            Node::Num { val, input_base } => match val.checked_recip() {
                Some(recip) => Ok(Node::Num { val: recip, input_base }),
                None => Err(ReduceError::DivisionByZero),
            },
            node => Ok(Node::Inverse(Box::new(node))),
        }
    }

    /// The trigonometric function `kind` of `inner`, as a tree.
    pub fn trig_node(kind: TrigKind, inner: Node) -> (r: Node)
        ensures
            r@ == Expr::Trig(kind, Box::new(inner@)),
    {
        match kind {
            TrigKind::Sin => Node::Sin(Box::new(inner)),
            TrigKind::Cos => Node::Cos(Box::new(inner)),
            TrigKind::Tan => Node::Tan(Box::new(inner)),
        }
    }

    /// The reduced form of a trigonometric function of a reduced argument.
    pub fn reduce_trig(kind: TrigKind, inner: Node) -> (r: Node)
        ensures
            r@ == reduce_trig(kind, inner@),
    {
        match inner.get_pi_multiplier() {
            Some(pi_multiplier) => {
                let even = pi_multiplier % 2 == 0;
                if even {
                    match kind {
                        TrigKind::Sin => Node::zero(),
                        TrigKind::Cos => Node::one(),
                        TrigKind::Tan => Node::zero(),
                    }
                } else {
                    match kind {
                        TrigKind::Sin => Node::one(),
                        TrigKind::Cos => Node::minus_one(),
                        TrigKind::Tan => Node::zero(),
                    }
                }
            },
            None => Node::trig_node(kind, inner),
        }
    }

    /// The reduced form of the tree, or the reason why it has none.
    #[verifier::loop_isolation(false)]
    pub fn reduced(&self) -> (r: Result<Node, ReduceError>)
        ensures
            match r {
                Ok(n) => reduce(self@) == Some(n@),
                Err(e) => e == ReduceError::DivisionByZero && reduce(self@) is None,
            },
        decreases self@.size(),
    {
        match self {
            Node::VarOp { kind, children } => {
                proof {
                    Node::lemma_model_children(*kind, *children);
                    lemma_flatten_size(models(children@), *kind);
                }
                let flat = flatten_refs(children, *kind);
                let ghost all = ref_models(flat@);
                let mut operands: Vec<Node> = Vec::new();
                let mut i: usize = 0;
                assert(reduce_seq(all.take(0)) == Some(models(operands@))) by {
                    assert(models(operands@) =~= Seq::<Expr>::empty());
                }
                while i < flat.len()
                    invariant
                        i <= flat.len(),
                        reduce_seq(all.take(i as int)) == Some(models(operands@)),
                    decreases flat.len() - i,
                {
                    proof {
                        assert(all.take(i + 1).drop_last() =~= all.take(i as int));
                        assert(all.take(i + 1).last() == flat@[i as int]@);
                        lemma_member_size(all, i as int);
                    }
                    match flat[i].reduced() {
                        Ok(node) => {
                            proof {
                                lemma_models_push(operands@, node);
                            }
                            operands.push(node);
                        },
                        Err(e) => {
                            proof {
                                lemma_reduce_seq_fails(all, i + 1);
                            }
                            return Err(e);
                        },
                    }
                    i += 1;
                }
                proof {
                    assert(all.take(flat.len() as int) =~= all);
                    lemma_reduce_seq_shaped(all);
                    assert(no_short_product(models(operands@)));
                }
                Ok(Node::combine_operands(*kind, &operands))
            },
            Node::Exp(a, b) => {
                let a = a.reduced();
                let b = b.reduced();
                match (a, b) {
                    (Ok(a), Ok(b)) => Ok(Node::reduce_exp(a, b)),
                    (Err(e), _) => Err(e),
                    (_, Err(e)) => Err(e),
                }
            },
            Node::Inverse(a) => match a.reduced() {
                Ok(inner) => Node::reduce_inverse(inner),
                Err(e) => Err(e),
            },
            Node::Sin(inner) => match inner.reduced() {
                Ok(inner) => Ok(Node::reduce_trig(TrigKind::Sin, inner)),
                Err(e) => Err(e),
            },
            Node::Cos(inner) => match inner.reduced() {
                Ok(inner) => Ok(Node::reduce_trig(TrigKind::Cos, inner)),
                Err(e) => Err(e),
            },
            Node::Tan(inner) => match inner.reduced() {
                Ok(inner) => Ok(Node::reduce_trig(TrigKind::Tan, inner)),
                Err(e) => Err(e),
            },
            node => Ok(node.duplicate()),
        }
    }

    /// Reduces the tree to its canonical form.  Fails on the inverse of a
    /// literal zero.
    pub fn deep_reduce(self) -> (r: Result<Node, ReduceError>)
        ensures
            match r {
                Ok(n) => reduce(self@) == Some(n@),
                Err(e) => e == ReduceError::DivisionByZero && reduce(self@) is None,
            },
    {
        self.reduced()
    }
}

} // verus!
