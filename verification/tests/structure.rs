use a22abb2_core::reduce::{self, TermGroup};
use a22abb2_core::{ConstKind, Node, Rational, VarOpKind};

fn num(n: i64) -> Node {
    Node::Num { val: Rational::from_integer(n), input_base: None }
}

fn pi() -> Node {
    Node::Const(ConstKind::Pi)
}

fn e() -> Node {
    Node::Const(ConstKind::E)
}

fn tau() -> Node {
    Node::Const(ConstKind::Tau)
}

fn var_op(kind: VarOpKind, children: Vec<Node>) -> Node {
    Node::VarOp { kind, children }
}

#[test]
fn binary_constructors_build_two_operands() {
    assert_eq!(Node::add(pi(), e()), var_op(VarOpKind::Add, vec![pi(), e()]));
    assert_eq!(Node::mul(pi(), e()), var_op(VarOpKind::Mul, vec![pi(), e()]));
    assert_eq!(Node::op(VarOpKind::Mul, num(1), num(2)), var_op(VarOpKind::Mul, vec![num(1), num(2)]));
}

#[test]
fn derived_constructors() {
    assert_eq!(Node::opposite(pi()), Node::mul(Node::minus_one(), pi()));
    assert_eq!(Node::sub(pi(), e()), Node::add(pi(), Node::mul(num(-1), e())));
    assert_eq!(Node::div(pi(), e()), Node::mul(pi(), Node::Inverse(Box::new(e()))));
}

#[test]
fn literal_constructors() {
    assert_eq!(Node::zero(), num(0));
    assert_eq!(Node::one(), num(1));
    assert_eq!(Node::minus_one(), num(-1));
}

#[test]
fn operator_descriptor() {
    assert_eq!(VarOpKind::Add.identity_bigr(), Rational::zero());
    assert_eq!(VarOpKind::Mul.identity_bigr(), Rational::one());
    let a = Rational::new(1, 2).unwrap();
    let b = Rational::new(1, 3).unwrap();
    assert_eq!(VarOpKind::Add.eval_bigr_fn(a.clone(), b.clone()), Rational::new(5, 6).unwrap());
    assert_eq!(VarOpKind::Mul.eval_bigr_fn(a, b), Rational::new(1, 6).unwrap());
    assert_eq!(VarOpKind::Add.compress(pi(), num(3)), Node::mul(pi(), num(3)));
    assert_eq!(
        VarOpKind::Mul.compress(pi(), num(3)),
        Node::Exp(Box::new(pi()), Box::new(num(3)))
    );
}

#[test]
fn structural_equality_and_copy() {
    let n = Node::add(Node::mul(num(2), pi()), Node::Sin(Box::new(e())));
    assert!(n.equals(&n.duplicate()));
    assert!(n.equals(&n.clone()));
    assert_eq!(n.duplicate(), n);
    assert!(!n.equals(&Node::add(Node::mul(num(2), pi()), Node::Cos(Box::new(e())))));
    assert!(!n.equals(&Node::mul(Node::mul(num(2), pi()), Node::Sin(Box::new(e())))));
    assert!(!Node::add(pi(), e()).equals(&Node::add(e(), pi())));
    assert!(!var_op(VarOpKind::Add, vec![pi()]).equals(&var_op(VarOpKind::Add, vec![pi(), pi()])));
    let hinted = Node::Num { val: Rational::from_integer(2), input_base: Some(16) };
    assert!(!hinted.equals(&num(2)));
    assert!(hinted.equals(&hinted.duplicate()));
    assert!(!num(2).equals(&num(3)));
    assert!(!pi().equals(&tau()));
}

#[test]
fn flattening_goes_level_by_level() {
    let children = vec![
        Node::add(num(1), Node::add(num(2), num(5))),
        num(3),
        Node::mul(num(4), Node::add(num(6), num(7))),
    ];
    let flat = Node::deep_flatten_children(&children, VarOpKind::Add);
    assert_eq!(
        flat,
        vec![num(3), Node::mul(num(4), Node::add(num(6), num(7))), num(1), num(2), num(5)]
    );
    let other = Node::deep_flatten_children(&children, VarOpKind::Mul);
    assert_eq!(
        other,
        vec![Node::add(num(1), Node::add(num(2), num(5))), num(3), num(4), Node::add(num(6), num(7))]
    );
}

#[test]
fn flattening_drops_empty_operators() {
    let children = vec![var_op(VarOpKind::Add, vec![]), pi(), var_op(VarOpKind::Add, vec![e()])];
    assert_eq!(Node::deep_flatten_children(&children, VarOpKind::Add), vec![pi(), e()]);
    assert_eq!(Node::deep_flatten_children(&vec![], VarOpKind::Add), vec![]);
}

#[test]
fn collapsing_folds_literals_to_the_end() {
    let nodes = vec![pi(), num(2), e(), num(3)];
    assert_eq!(Node::collapse_numbers(&nodes, VarOpKind::Add), vec![pi(), e(), num(5)]);
    assert_eq!(Node::collapse_numbers(&nodes, VarOpKind::Mul), vec![pi(), e(), num(6)]);
    assert_eq!(Node::collapse_numbers(&vec![pi(), e()], VarOpKind::Mul), vec![pi(), e()]);
    assert_eq!(Node::collapse_numbers(&vec![num(4)], VarOpKind::Mul), vec![num(4)]);
    assert_eq!(Node::collapse_numbers(&vec![], VarOpKind::Add), vec![]);
}

#[test]
fn collapsing_folds_base_hints() {
    let nodes = vec![
        Node::Num { val: Rational::from_integer(1), input_base: Some(10) },
        pi(),
        Node::Num { val: Rational::from_integer(2), input_base: Some(16) },
    ];
    assert_eq!(
        Node::collapse_numbers(&nodes, VarOpKind::Add),
        vec![pi(), Node::Num { val: Rational::from_integer(3), input_base: Some(16) }]
    );
}

#[test]
fn splitting_terms_of_a_sum() {
    let two = Node::mul(pi(), e());
    assert_eq!(Node::split_term(VarOpKind::Add, &two), (e(), pi()));
    let three = var_op(VarOpKind::Mul, vec![pi(), e(), tau()]);
    assert_eq!(Node::split_term(VarOpKind::Add, &three), (Node::mul(e(), tau()), pi()));
    assert_eq!(Node::split_term(VarOpKind::Add, &pi()), (pi(), Node::one()));
    let power = Node::Exp(Box::new(pi()), Box::new(e()));
    assert_eq!(Node::split_term(VarOpKind::Add, &power), (power.duplicate(), Node::one()));
}

#[test]
fn splitting_factors_of_a_product() {
    let power = Node::Exp(Box::new(pi()), Box::new(e()));
    assert_eq!(Node::split_term(VarOpKind::Mul, &power), (pi(), e()));
    assert_eq!(Node::split_term(VarOpKind::Mul, &pi()), (pi(), Node::one()));
    let sum = Node::add(pi(), e());
    assert_eq!(Node::split_term(VarOpKind::Mul, &sum), (sum.duplicate(), Node::one()));
}

#[test]
fn groups_keep_first_occurrence_order() {
    let operands = vec![pi(), e(), pi(), Node::Exp(Box::new(e()), Box::new(tau()))];
    let groups = Node::group_terms(VarOpKind::Mul, &operands);
    assert_eq!(groups.len(), 2);
    assert_eq!(groups[0].key, pi());
    assert_eq!(groups[0].weights, vec![num(1), num(1)]);
    assert_eq!(groups[1].key, e());
    assert_eq!(groups[1].weights, vec![num(1), tau()]);
}

#[test]
fn recombining_a_group() {
    let once = TermGroup { key: pi(), weights: vec![num(1)] };
    assert_eq!(Node::recombine(VarOpKind::Add, &once), Some(pi()));
    let twice = TermGroup { key: pi(), weights: vec![num(1), num(1)] };
    assert_eq!(Node::recombine(VarOpKind::Add, &twice), Some(Node::mul(pi(), num(2))));
    assert_eq!(
        Node::recombine(VarOpKind::Mul, &twice),
        Some(Node::Exp(Box::new(pi()), Box::new(num(2))))
    );
    let mixed = TermGroup { key: pi(), weights: vec![num(1), e(), num(2)] };
    assert_eq!(
        Node::recombine(VarOpKind::Mul, &mixed),
        Some(Node::Exp(Box::new(pi()), Box::new(Node::add(e(), num(3)))))
    );
    let symbolic = TermGroup { key: pi(), weights: vec![e()] };
    assert_eq!(Node::recombine(VarOpKind::Add, &symbolic), Some(Node::mul(pi(), e())));
    let none = TermGroup { key: pi(), weights: vec![] };
    assert_eq!(Node::recombine(VarOpKind::Add, &none), None);
    let cancelled = TermGroup { key: pi(), weights: vec![num(1), num(-1)] };
    assert_eq!(Node::recombine(VarOpKind::Add, &cancelled), Some(Node::mul(pi(), num(0))));
}

#[test]
fn assembling_operands() {
    assert_eq!(Node::assemble(VarOpKind::Add, vec![]), num(0));
    assert_eq!(Node::assemble(VarOpKind::Mul, vec![]), num(1));
    assert_eq!(Node::assemble(VarOpKind::Mul, vec![pi()]), pi());
    assert_eq!(Node::assemble(VarOpKind::Add, vec![pi(), e()]), Node::add(pi(), e()));
}

#[test]
fn reduction_steps_on_reduced_parts() {
    assert_eq!(Node::reduce_exp(num(1), pi()), num(1));
    assert_eq!(Node::reduce_exp(pi(), num(0)), num(1));
    assert_eq!(Node::reduce_exp(pi(), num(1)), Node::Exp(Box::new(pi()), Box::new(num(1))));
    assert_eq!(Node::reduce_inverse(num(0)), Err(reduce::ReduceError::DivisionByZero));
    assert_eq!(Node::reduce_inverse(pi()), Ok(Node::Inverse(Box::new(pi()))));
    assert_eq!(
        Node::combine_operands(VarOpKind::Add, &vec![pi(), num(1), pi(), num(2)]),
        Node::add(Node::mul(pi(), num(2)), num(3))
    );
}
