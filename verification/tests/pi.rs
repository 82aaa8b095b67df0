use a22abb2_core::{ConstKind, Node, Rational, VarOpKind};

fn num(n: i64) -> Node {
    Node::Num { val: Rational::from_integer(n), input_base: None }
}

fn pi() -> Node {
    Node::Const(ConstKind::Pi)
}

fn tau() -> Node {
    Node::Const(ConstKind::Tau)
}

fn e() -> Node {
    Node::Const(ConstKind::E)
}

fn product(children: Vec<Node>) -> Node {
    Node::VarOp { kind: VarOpKind::Mul, children }
}

#[test]
fn constants_and_zero() {
    assert_eq!(pi().get_pi_multiplier(), Some(1));
    assert_eq!(tau().get_pi_multiplier(), Some(2));
    assert_eq!(e().get_pi_multiplier(), None);
    assert_eq!(num(0).get_pi_multiplier(), Some(0));
    assert_eq!(num(5).get_pi_multiplier(), None);
}

#[test]
fn products_of_integers_and_pi() {
    assert_eq!(product(vec![num(2), pi()]).get_pi_multiplier(), Some(2));
    assert_eq!(product(vec![pi(), num(2)]).get_pi_multiplier(), Some(2));
    assert_eq!(product(vec![num(-3), tau()]).get_pi_multiplier(), Some(-6));
    assert_eq!(product(vec![num(2), num(5), pi(), num(3)]).get_pi_multiplier(), Some(30));
    assert_eq!(product(vec![num(2), product(vec![num(3), pi()])]).get_pi_multiplier(), Some(6));
    assert_eq!(product(vec![pi()]).get_pi_multiplier(), Some(1));
}

#[test]
fn products_without_pi() {
    assert_eq!(product(vec![num(2), num(3)]).get_pi_multiplier(), None);
    assert_eq!(product(vec![]).get_pi_multiplier(), None);
    assert_eq!(product(vec![num(0), num(3)]).get_pi_multiplier(), None);
}

#[test]
fn zero_factors() {
    assert_eq!(product(vec![num(0), pi()]).get_pi_multiplier(), Some(0));
    assert_eq!(product(vec![pi(), num(0)]).get_pi_multiplier(), Some(0));
    assert_eq!(product(vec![product(vec![num(0), pi()]), e()]).get_pi_multiplier(), Some(0));
    assert_eq!(product(vec![e(), product(vec![num(0), pi()])]).get_pi_multiplier(), None);
}

#[test]
fn undetectable_shapes() {
    let half = Node::Num { val: Rational::new(1, 2).unwrap(), input_base: None };
    assert_eq!(product(vec![half, pi()]).get_pi_multiplier(), None);
    assert_eq!(product(vec![pi(), pi()]).get_pi_multiplier(), None);
    assert_eq!(product(vec![pi(), tau()]).get_pi_multiplier(), None);
    assert_eq!(product(vec![e(), pi()]).get_pi_multiplier(), None);
    assert_eq!(Node::add(pi(), pi()).get_pi_multiplier(), None);
    assert_eq!(Node::Sin(Box::new(pi())).get_pi_multiplier(), None);
    assert_eq!(Node::Inverse(Box::new(pi())).get_pi_multiplier(), None);
    assert_eq!(Node::Exp(Box::new(pi()), Box::new(num(1))).get_pi_multiplier(), None);
}

#[test]
fn overflow_ends_detection() {
    assert_eq!(product(vec![num(i64::MAX), num(2), pi()]).get_pi_multiplier(), None);
    assert_eq!(product(vec![num(i64::MAX), tau()]).get_pi_multiplier(), None);
    assert_eq!(product(vec![num(i64::MIN), num(-1), pi()]).get_pi_multiplier(), None);
    let big = Node::Num {
        val: Rational::from_digits(false, &vec![0, 0, 1], &vec![1]).unwrap(),
        input_base: None,
    };
    assert_eq!(product(vec![big, pi()]).get_pi_multiplier(), None);
    assert_eq!(product(vec![num(i64::MAX), pi()]).get_pi_multiplier(), Some(i64::MAX));
    assert_eq!(product(vec![num(i64::MIN), pi()]).get_pi_multiplier(), Some(i64::MIN));
}
