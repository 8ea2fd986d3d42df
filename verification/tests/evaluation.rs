use arith_expr::{parse, Node};

/// Reduces a tree to a number with IEEE semantics, as an embedding
/// application would; numeric leaves hold the literal text they were
/// scanned from, so this is where the text becomes a float.
fn eval_node(node: &Node) -> f64 {
    match node {
        Node::Number(text) => text.parse::<f64>().unwrap(),
        Node::Addition(l, r) => eval_node(l) + eval_node(r),
        Node::Subtraction(l, r) => eval_node(l) - eval_node(r),
        Node::Multiplication(l, r) => eval_node(l) * eval_node(r),
        Node::Division(l, r) => eval_node(l) / eval_node(r),
        Node::Power(l, r) => eval_node(l).powf(eval_node(r)),
        Node::Modulo(l, r) => eval_node(l) % eval_node(r),
        Node::Positive(c) => eval_node(c),
        Node::Negative(c) => -eval_node(c),
    }
}

fn eval_str(text: &str) -> f64 {
    eval_node(&parse(text).unwrap())
}

#[test]
fn literal_evaluates_to_its_value() {
    assert_eq!(eval_str("42"), 42.0);
    assert_eq!(eval_str("3.25"), 3.25);
    assert_eq!(eval_str("7."), 7.0);
    assert_eq!(eval_str("0"), 0.0);
}

#[test]
fn addition_evaluates() {
    assert_eq!(eval_str("2+3"), 5.0);
}

#[test]
fn subtraction_is_left_associative() {
    assert_eq!(eval_str("10-2-3"), 5.0);
}

#[test]
fn flat_precedence_of_power_and_product() {
    assert_eq!(eval_str("2^3*2"), 16.0);
}

#[test]
fn parentheses_restore_grouping() {
    assert_eq!(eval_str("2^(3*2)"), 64.0);
}

#[test]
fn unary_chains_evaluate() {
    assert_eq!(eval_str("--5"), 5.0);
    assert_eq!(eval_str("+-5"), -5.0);
}

#[test]
fn division_by_zero_gives_infinity() {
    assert_eq!(eval_str("1/0"), f64::INFINITY);
}

#[test]
fn division_evaluates() {
    assert_eq!(eval_str("1/2"), 0.5);
}

#[test]
fn modulo_follows_the_dividend_sign() {
    assert_eq!(eval_str("7%3"), 1.0);
    assert_eq!(eval_str("7%-3"), 1.0);
}

#[test]
fn stray_closing_paren_evaluates() {
    assert_eq!(eval_str(")5"), 5.0);
}

#[test]
fn reevaluating_yields_identical_results() {
    let first = eval_str("2^(3*2)-10/4");
    let second = eval_str("2^(3*2)-10/4");
    assert_eq!(first, second);
}
