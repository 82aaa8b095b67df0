use a22abb2_core::render::get_node_priority;
use a22abb2_core::{ConstKind, Node, NodePriority, Rational, VarOpKind};

fn num(n: i64) -> Node {
    Node::Num { val: Rational::from_integer(n), input_base: None }
}

fn frac(n: i64, d: i64) -> Node {
    Node::Num { val: Rational::new(n, d).unwrap(), input_base: None }
}

fn pi() -> Node {
    Node::Const(ConstKind::Pi)
}

fn e() -> Node {
    Node::Const(ConstKind::E)
}

fn exp(a: Node, b: Node) -> Node {
    Node::Exp(Box::new(a), Box::new(b))
}

#[test]
fn product_inside_sum_needs_no_parentheses() {
    assert_eq!(Node::add(Node::mul(num(2), pi()), num(3)).render(), "2 * pi + 3");
    assert_eq!(Node::add(num(1), Node::mul(num(2), num(3))).render(), "1 + 2 * 3");
}

#[test]
fn sum_inside_product_is_parenthesized() {
    assert_eq!(Node::mul(Node::add(num(1), pi()), num(2)).render(), "(1 + pi) * 2");
    assert_eq!(Node::mul(num(2), Node::add(num(1), pi())).render(), "2 * (1 + pi)");
}

#[test]
fn leaves() {
    assert_eq!(pi().render(), "pi");
    assert_eq!(Node::Const(ConstKind::Tau).render(), "tau");
    assert_eq!(e().render(), "e");
    assert_eq!(num(42).render(), "42");
    assert_eq!(num(-42).render(), "-42");
    assert_eq!(frac(-2, 3).render(), "-2/3");
    assert_eq!(Node::Num { val: Rational::from_integer(255), input_base: Some(16) }.render(), "255");
}

#[test]
fn nested_operators_of_one_kind() {
    assert_eq!(Node::add(Node::add(num(1), num(2)), num(3)).render(), "1 + 2 + 3");
    assert_eq!(Node::add(num(1), Node::add(num(2), num(3))).render(), "1 + 2 + 3");
    assert_eq!(Node::mul(Node::mul(num(1), num(2)), num(3)).render(), "1 * 2 * 3");
    let n = Node::VarOp { kind: VarOpKind::Add, children: vec![pi(), e(), num(1), num(2)] };
    assert_eq!(n.render(), "pi + e + 1 + 2");
}

#[test]
fn empty_and_single_operators_render() {
    assert_eq!(Node::VarOp { kind: VarOpKind::Add, children: vec![] }.render(), "");
    assert_eq!(Node::VarOp { kind: VarOpKind::Mul, children: vec![pi()] }.render(), "pi");
    let sum = Node::add(num(1), num(2));
    assert_eq!(Node::VarOp { kind: VarOpKind::Mul, children: vec![sum] }.render(), "(1 + 2)");
}

#[test]
fn division_and_inverse() {
    assert_eq!(Node::div(pi(), e()).render(), "pi / e");
    assert_eq!(Node::div(pi(), Node::add(num(1), e())).render(), "pi / (1 + e)");
    assert_eq!(Node::div(pi(), Node::mul(num(2), e())).render(), "pi / 2 * e");
    assert_eq!(Node::Inverse(Box::new(pi())).render(), "1/pi");
    assert_eq!(Node::Inverse(Box::new(Node::add(num(1), pi()))).render(), "1/(1 + pi)");
    assert_eq!(Node::mul(Node::Inverse(Box::new(pi())), e()).render(), "1/pi * e");
    assert_eq!(Node::add(pi(), Node::Inverse(Box::new(e()))).render(), "pi + 1/e");
    assert_eq!(Node::div(Node::div(num(1), num(2)), num(3)).render(), "1 / 2 / 3");
}

#[test]
fn subtraction_and_opposite() {
    assert_eq!(Node::sub(pi(), e()).render(), "pi + -1 * e");
    assert_eq!(Node::opposite(pi()).render(), "-1 * pi");
}

#[test]
fn powers() {
    assert_eq!(exp(pi(), num(2)).render(), "pi^2");
    assert_eq!(exp(exp(pi(), num(2)), num(3)).render(), "(pi^2)^3");
    assert_eq!(exp(pi(), exp(num(2), num(3))).render(), "pi^(2^3)");
    assert_eq!(exp(Node::add(num(1), pi()), num(2)).render(), "(1 + pi)^2");
    assert_eq!(exp(num(2), Node::mul(num(3), pi())).render(), "2^(3 * pi)");
    assert_eq!(exp(frac(2, 3), num(2)).render(), "(2/3)^2");
    assert_eq!(Node::mul(num(2), exp(pi(), num(2))).render(), "2 * pi^2");
    assert_eq!(exp(Node::Sin(Box::new(pi())), num(2)).render(), "sin pi^2");
}

#[test]
fn fractions_bind_like_division() {
    assert_eq!(Node::mul(frac(1, 2), pi()).render(), "1/2 * pi");
    assert_eq!(Node::add(frac(1, 2), pi()).render(), "1/2 + pi");
    assert_eq!(Node::Inverse(Box::new(frac(1, 2))).render(), "1/1/2");
}

#[test]
fn functions() {
    assert_eq!(Node::Sin(Box::new(pi())).render(), "sin pi");
    assert_eq!(Node::Cos(Box::new(num(0))).render(), "cos 0");
    assert_eq!(Node::Tan(Box::new(num(-1))).render(), "tan -1");
    assert_eq!(Node::Sin(Box::new(Node::add(num(1), pi()))).render(), "sin(1 + pi)");
    assert_eq!(Node::Cos(Box::new(Node::mul(num(2), pi()))).render(), "cos(2 * pi)");
    assert_eq!(Node::Tan(Box::new(exp(pi(), num(2)))).render(), "tan(pi^2)");
    assert_eq!(Node::Sin(Box::new(frac(1, 2))).render(), "sin(1/2)");
    assert_eq!(Node::Sin(Box::new(Node::Cos(Box::new(pi())))).render(), "sin cos pi");
    assert_eq!(Node::Sin(Box::new(Node::Inverse(Box::new(pi())))).render(), "sin(1/pi)");
}

#[test]
fn appending_to_existing_text() {
    let mut out = String::from("x = ");
    Node::add(pi(), num(1)).fmt(&mut out);
    assert_eq!(out, "x = pi + 1");
}

#[test]
fn priorities() {
    assert_eq!(get_node_priority(&pi()), NodePriority::Value);
    assert_eq!(get_node_priority(&num(3)), NodePriority::Value);
    assert_eq!(get_node_priority(&frac(1, 3)), NodePriority::Mul);
    assert_eq!(get_node_priority(&Node::Inverse(Box::new(pi()))), NodePriority::Mul);
    assert_eq!(get_node_priority(&Node::add(pi(), e())), NodePriority::Add);
    assert_eq!(get_node_priority(&Node::mul(pi(), e())), NodePriority::Mul);
    assert_eq!(get_node_priority(&exp(pi(), e())), NodePriority::Exp);
    assert_eq!(get_node_priority(&Node::Tan(Box::new(e()))), NodePriority::Value);
    assert!(NodePriority::Add.rank() < NodePriority::Mul.rank());
    assert!(NodePriority::Mul.rank() < NodePriority::Exp.rank());
    assert!(NodePriority::Exp.rank() < NodePriority::Value.rank());
}

#[test]
fn reduced_forms_render() {
    let n = Node::add(Node::add(pi(), pi()), Node::mul(e(), e()));
    assert_eq!(n.deep_reduce().unwrap().render(), "e^2 + pi * 2");
}
