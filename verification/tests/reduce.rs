use a22abb2_core::expr::{ConstKind, VarOpKind};
use a22abb2_core::node::Node;
use a22abb2_core::rational::Rational;
use a22abb2_core::reduce::ReduceError;

fn num(n: i64) -> Node {
    Node::Num { val: Rational::from_integer(n), input_base: None }
}

fn frac(n: i64, d: i64) -> Node {
    Node::Num { val: Rational::new(n, d).unwrap(), input_base: None }
}

fn based(n: i64, base: u32) -> Node {
    Node::Num { val: Rational::from_integer(n), input_base: Some(base) }
}

fn pi() -> Node {
    Node::Const(ConstKind::Pi)
}

fn tau() -> Node {
    Node::Const(ConstKind::Tau)
}

fn e() -> Node {
    Node::Const(ConstKind::E)
}

fn var_op(kind: VarOpKind, children: Vec<Node>) -> Node {
    Node::VarOp { kind, children }
}

fn exp(a: Node, b: Node) -> Node {
    Node::Exp(Box::new(a), Box::new(b))
}

fn reduce(n: Node) -> Node {
    n.deep_reduce().unwrap()
}

#[test]
fn nested_sums_reduce_to_one_literal() {
    let left = reduce(Node::add(Node::add(num(1), num(2)), num(3)));
    let right = reduce(Node::add(num(1), Node::add(num(2), num(3))));
    assert_eq!(left, num(6));
    assert_eq!(right, num(6));
    assert_eq!(left, right);
}

#[test]
fn leaves_reduce_to_themselves() {
    assert_eq!(reduce(pi()), pi());
    assert_eq!(reduce(e()), e());
    assert_eq!(reduce(based(5, 16)), based(5, 16));
    assert_eq!(reduce(frac(2, 3)), frac(2, 3));
}

#[test]
fn repeated_term_is_counted() {
    assert_eq!(reduce(Node::add(pi(), pi())), Node::mul(pi(), num(2)));
    assert_eq!(
        reduce(var_op(VarOpKind::Add, vec![pi(), e(), pi(), pi()])),
        Node::add(Node::mul(pi(), num(3)), e())
    );
}

#[test]
fn terms_with_a_common_last_factor_are_collected() {
    let n = Node::add(Node::mul(pi(), e()), Node::mul(tau(), e()));
    assert_eq!(reduce(n), Node::mul(e(), Node::add(pi(), tau())));
}

#[test]
fn literal_coefficients_move_behind_their_term() {
    // The literal of a reduced product stands last, so it is the key of
    // each term and the two terms stay apart.
    let x = pi();
    let n = Node::add(Node::mul(num(2), x.duplicate()), Node::mul(num(3), x.duplicate()));
    assert_eq!(reduce(Node::mul(num(2), pi())), Node::mul(pi(), num(2)));
    assert_eq!(reduce(n), Node::add(Node::mul(num(2), pi()), Node::mul(num(3), pi())));
}

#[test]
fn first_factor_of_a_long_product_is_the_weight() {
    let a = var_op(VarOpKind::Mul, vec![pi(), e(), tau()]);
    let b = var_op(VarOpKind::Mul, vec![Node::Sin(Box::new(e())), e(), tau()]);
    let rest = Node::mul(e(), tau());
    assert_eq!(
        reduce(Node::add(a, b)),
        Node::mul(rest, Node::add(pi(), Node::Sin(Box::new(e()))))
    );
}

#[test]
fn repeated_factor_becomes_a_power() {
    assert_eq!(reduce(Node::mul(pi(), pi())), exp(pi(), num(2)));
    assert_eq!(reduce(Node::mul(e(), e())), exp(e(), num(2)));
    let s = Node::Sin(Box::new(e()));
    assert_eq!(reduce(Node::mul(s.duplicate(), s.duplicate())), exp(s, num(2)));
}

#[test]
fn exponents_of_a_common_base_are_summed() {
    let n = Node::mul(exp(pi(), num(2)), exp(pi(), num(3)));
    assert_eq!(reduce(n), exp(pi(), num(5)));
    let m = Node::mul(exp(pi(), e()), pi());
    assert_eq!(reduce(m), exp(pi(), Node::add(e(), num(1))));
    let k = Node::mul(exp(pi(), e()), exp(pi(), tau()));
    assert_eq!(reduce(k), exp(pi(), Node::add(e(), tau())));
}

#[test]
fn power_with_exponent_one_leaves_the_base() {
    assert_eq!(reduce(Node::mul(exp(num(2), num(1)), pi())), Node::mul(num(2), pi()));
}

#[test]
fn literals_fold_and_stand_last() {
    let n = var_op(VarOpKind::Add, vec![num(1), num(2), pi()]);
    match reduce(n) {
        Node::VarOp { kind, children } => {
            assert_eq!(kind, VarOpKind::Add);
            assert_eq!(children.len(), 2);
            assert_eq!(children[0], pi());
            assert_eq!(children[1], num(3));
        }
        other => panic!("not a sum: {:?}", other),
    }
    let m = var_op(VarOpKind::Mul, vec![num(2), e(), frac(3, 4)]);
    assert_eq!(reduce(m), Node::mul(e(), frac(3, 2)));
}

#[test]
fn folded_literal_carries_the_folded_base() {
    let n = Node::add(based(1, 10), based(2, 16));
    assert_eq!(reduce(n), based(3, 16));
    let m = Node::add(based(1, 16), Node::add(based(2, 2), num(4)));
    assert_eq!(reduce(m), based(7, 2));
    let k = Node::mul(based(3, 8), based(5, 16));
    assert_eq!(reduce(k), based(15, 8));
}

#[test]
fn empty_and_single_operators() {
    assert_eq!(reduce(var_op(VarOpKind::Add, vec![])), num(0));
    assert_eq!(reduce(var_op(VarOpKind::Mul, vec![])), num(1));
    assert_eq!(reduce(var_op(VarOpKind::Add, vec![pi()])), pi());
    assert_eq!(reduce(var_op(VarOpKind::Mul, vec![num(7)])), num(7));
}

#[test]
fn zero_term_is_kept() {
    assert_eq!(reduce(Node::add(pi(), num(0))), Node::add(pi(), num(0)));
}

#[test]
fn one_to_any_power_is_one() {
    assert_eq!(reduce(exp(Node::one(), pi())), Node::one());
    assert_eq!(reduce(exp(Node::one(), Node::add(e(), num(2)))), Node::one());
    assert_eq!(reduce(exp(based(1, 16), pi())), Node::one());
}

#[test]
fn anything_to_the_power_zero_is_one() {
    assert_eq!(reduce(exp(pi(), Node::zero())), Node::one());
    assert_eq!(reduce(exp(Node::add(e(), num(2)), Node::zero())), Node::one());
    assert_eq!(reduce(exp(num(0), num(0))), Node::one());
    assert_eq!(reduce(exp(pi(), Node::add(num(1), num(-1)))), Node::one());
}

#[test]
fn other_powers_stay() {
    assert_eq!(reduce(exp(pi(), num(2))), exp(pi(), num(2)));
    assert_eq!(reduce(exp(Node::add(num(1), num(1)), e())), exp(num(2), e()));
}

#[test]
fn inverse_of_literal_is_its_reciprocal() {
    assert_eq!(reduce(Node::Inverse(Box::new(frac(2, 3)))), frac(3, 2));
    assert_eq!(reduce(Node::Inverse(Box::new(frac(-2, 3)))), frac(-3, 2));
    assert_eq!(reduce(Node::Inverse(Box::new(based(4, 16)))), Node::Num {
        val: Rational::new(1, 4).unwrap(),
        input_base: Some(16),
    });
    assert_eq!(reduce(Node::div(num(1), num(4))), frac(1, 4));
}

#[test]
fn inverse_of_other_operand_stays() {
    assert_eq!(reduce(Node::Inverse(Box::new(pi()))), Node::Inverse(Box::new(pi())));
    assert_eq!(
        reduce(Node::Inverse(Box::new(Node::add(pi(), pi())))),
        Node::Inverse(Box::new(Node::mul(pi(), num(2))))
    );
}

#[test]
fn inverse_of_zero_is_an_error() {
    assert_eq!(Node::Inverse(Box::new(num(0))).deep_reduce(), Err(ReduceError::DivisionByZero));
    let hidden = Node::add(pi(), Node::Sin(Box::new(Node::div(e(), Node::add(num(2), num(-2))))));
    assert_eq!(hidden.deep_reduce(), Err(ReduceError::DivisionByZero));
    let power = exp(Node::one(), Node::Inverse(Box::new(num(0))));
    assert_eq!(power.deep_reduce(), Err(ReduceError::DivisionByZero));
}

#[test]
fn trig_of_multiples_of_pi() {
    assert_eq!(reduce(Node::Sin(Box::new(tau()))), num(0));
    assert_eq!(reduce(Node::Cos(Box::new(tau()))), num(1));
    assert_eq!(reduce(Node::Cos(Box::new(pi()))), num(-1));
    assert_eq!(reduce(Node::Tan(Box::new(pi()))), num(0));
    assert_eq!(reduce(Node::Tan(Box::new(tau()))), num(0));
    assert_eq!(reduce(Node::Sin(Box::new(pi()))), num(1));
    assert_eq!(reduce(Node::Sin(Box::new(num(0)))), num(0));
    assert_eq!(reduce(Node::Cos(Box::new(num(0)))), num(1));
}

#[test]
fn trig_of_products_with_pi() {
    assert_eq!(reduce(Node::Cos(Box::new(Node::mul(num(3), pi())))), num(-1));
    assert_eq!(reduce(Node::Cos(Box::new(Node::mul(num(-3), pi())))), num(-1));
    assert_eq!(reduce(Node::Cos(Box::new(Node::mul(num(4), pi())))), num(1));
    assert_eq!(reduce(Node::Cos(Box::new(Node::mul(num(-5), tau())))), num(1));
    assert_eq!(reduce(Node::Sin(Box::new(Node::opposite(pi())))), num(1));
}

#[test]
fn trig_of_other_arguments_keeps_the_reduced_argument() {
    assert_eq!(reduce(Node::Sin(Box::new(e()))), Node::Sin(Box::new(e())));
    assert_eq!(
        reduce(Node::Cos(Box::new(Node::add(num(1), num(2))))),
        Node::Cos(Box::new(num(3)))
    );
    assert_eq!(
        reduce(Node::Tan(Box::new(Node::mul(frac(1, 2), pi())))),
        Node::Tan(Box::new(Node::mul(pi(), frac(1, 2))))
    );
    assert_eq!(
        reduce(Node::Sin(Box::new(Node::mul(pi(), pi())))),
        Node::Sin(Box::new(exp(pi(), num(2))))
    );
}

#[test]
fn reducing_twice_changes_nothing_without_operators() {
    let samples = vec![
        pi(),
        frac(2, 3),
        exp(pi(), e()),
        exp(exp(Node::one(), e()), pi()),
        Node::Inverse(Box::new(exp(pi(), num(0)))),
        Node::Sin(Box::new(Node::Cos(Box::new(tau())))),
        Node::Tan(Box::new(Node::Inverse(Box::new(frac(5, 7))))),
    ];
    for n in samples {
        let once = reduce(n);
        let twice = reduce(once.duplicate());
        assert_eq!(twice, once);
    }
}

#[test]
fn reducing_twice_can_swap_a_product() {
    let n = Node::add(Node::mul(pi(), e()), tau());
    let once = reduce(n.duplicate());
    assert_eq!(once, Node::add(Node::mul(e(), pi()), tau()));
    let twice = reduce(once);
    assert_eq!(twice, n);
}

#[test]
fn subtraction_and_division_reduce_through_their_building_blocks() {
    assert_eq!(reduce(Node::sub(num(5), num(3))), num(2));
    assert_eq!(reduce(Node::div(num(6), num(4))), frac(3, 2));
    assert_eq!(reduce(Node::opposite(num(4))), num(-4));
    assert_eq!(reduce(Node::sub(pi(), pi())), Node::sub(pi(), pi()));
}

#[test]
fn reducing_twice_changes_nothing_over_literal_arithmetic() {
    let samples = vec![
        Node::add(Node::add(num(1), num(2)), num(3)),
        Node::sub(frac(1, 2), Node::div(num(3), num(4))),
        Node::Sin(Box::new(Node::mul(num(2), Node::div(num(1), num(3))))),
        exp(Node::add(num(1), num(1)), Node::Cos(Box::new(Node::sub(num(5), num(5))))),
        Node::Inverse(Box::new(exp(pi(), Node::mul(num(2), frac(1, 2))))),
        var_op(VarOpKind::Mul, vec![]),
    ];
    for n in samples {
        let once = reduce(n);
        let twice = reduce(once.duplicate());
        assert_eq!(twice, once);
    }
}

#[test]
fn square_of_a_power_sums_the_exponents_instead() {
    let x = exp(pi(), e());
    assert_eq!(reduce(Node::mul(x.duplicate(), x)), exp(pi(), Node::add(e(), e())));
}

#[test]
fn square_of_a_product_squares_each_factor() {
    let x = Node::mul(pi(), e());
    assert_eq!(
        reduce(Node::mul(x.duplicate(), x)),
        Node::mul(exp(pi(), num(2)), exp(e(), num(2)))
    );
}

#[test]
fn folded_literal_can_meet_an_equal_key() {
    let n = var_op(VarOpKind::Add, vec![num(1), num(2), Node::mul(pi(), num(3))]);
    assert_eq!(reduce(n), Node::mul(num(3), Node::add(pi(), num(1))));
}

fn approx(n: &Node) -> f64 {
    match n {
        Node::Const(ConstKind::Pi) => std::f64::consts::PI,
        Node::Const(ConstKind::Tau) => std::f64::consts::PI * 2.0,
        Node::Const(ConstKind::E) => std::f64::consts::E,
        Node::Num { val, .. } => {
            let text = val.to_text();
            let mut parts = text.split('/');
            let numer: f64 = parts.next().unwrap().parse().unwrap();
            let denom: f64 = parts.next().unwrap_or("1").parse().unwrap();
            numer / denom
        }
        Node::Inverse(a) => 1.0 / approx(a),
        Node::VarOp { kind: VarOpKind::Add, children } => children.iter().map(approx).sum(),
        Node::VarOp { kind: VarOpKind::Mul, children } => children.iter().map(approx).product(),
        Node::Exp(a, b) => approx(a).powf(approx(b)),
        Node::Sin(a) => approx(a).sin(),
        Node::Cos(a) => approx(a).cos(),
        Node::Tan(a) => approx(a).tan(),
    }
}

#[test]
fn reduction_keeps_the_approximate_value() {
    let samples = vec![
        Node::add(Node::mul(num(2), pi()), Node::mul(num(3), pi())),
        Node::sub(Node::div(e(), num(3)), Node::mul(pi(), frac(-7, 2))),
        Node::mul(exp(pi(), num(2)), Node::mul(pi(), exp(pi(), frac(1, 2)))),
        Node::add(Node::add(pi(), e()), Node::add(pi(), Node::add(e(), pi()))),
        Node::Cos(Box::new(Node::mul(num(3), pi()))),
        Node::Sin(Box::new(Node::mul(num(4), pi()))),
        Node::Tan(Box::new(Node::add(e(), frac(1, 3)))),
        exp(Node::add(num(1), num(1)), Node::div(num(1), e())),
        Node::div(Node::add(pi(), num(1)), Node::sub(e(), num(4))),
    ];
    for n in samples {
        let before = approx(&n);
        let after = approx(&reduce(n));
        assert!((before - after).abs() < 1e-9, "{} became {}", before, after);
    }
}

#[test]
fn arithmetic_over_literals_is_exact() {
    assert_eq!(reduce(Node::sub(frac(1, 2), Node::div(num(3), num(4)))), frac(-1, 4));
    assert_eq!(reduce(Node::mul(Node::add(num(1), num(2)), Node::add(num(3), num(4)))), num(21));
    assert_eq!(
        reduce(Node::div(Node::add(frac(1, 3), frac(1, 6)), Node::sub(num(1), frac(1, 4)))),
        frac(2, 3)
    );
    assert_eq!(
        Node::Inverse(Box::new(Node::sub(num(2), num(2)))).deep_reduce(),
        Err(ReduceError::DivisionByZero)
    );
    let big = Node::Num { val: Rational::from_integer(i64::MAX), input_base: None };
    assert_eq!(
        reduce(Node::mul(big.duplicate(), big)).render(),
        "85070591730234615847396907784232501249"
    );
}
