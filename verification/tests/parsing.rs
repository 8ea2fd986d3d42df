use arith_expr::{parse, Node, ParseError, Parser, Token, Tokenizer};

fn num(text: &str) -> Node {
    Node::Number(text.to_string())
}

#[test]
fn parses_plain_integer_literal() {
    assert_eq!(parse("42").unwrap(), num("42"));
}

#[test]
fn parses_decimal_literal() {
    assert_eq!(parse("3.25").unwrap(), num("3.25"));
}

#[test]
fn parses_literal_with_trailing_point() {
    assert_eq!(parse("7.").unwrap(), num("7."));
}

#[test]
fn parses_addition_to_expected_tree() {
    let expected = Node::Addition(Box::new(num("2")), Box::new(num("3")));
    assert_eq!(parse("2+3").unwrap(), expected);
}

#[test]
fn subtraction_groups_to_the_left() {
    let expected = Node::Subtraction(
        Box::new(Node::Subtraction(Box::new(num("10")), Box::new(num("2")))),
        Box::new(num("3")),
    );
    assert_eq!(parse("10-2-3").unwrap(), expected);
}

#[test]
fn caret_and_asterisk_share_one_precedence_level() {
    let expected = Node::Multiplication(
        Box::new(Node::Power(Box::new(num("2")), Box::new(num("3")))),
        Box::new(num("2")),
    );
    assert_eq!(parse("2^3*2").unwrap(), expected);
}

#[test]
fn parentheses_override_flat_precedence() {
    let expected = Node::Power(
        Box::new(num("2")),
        Box::new(Node::Multiplication(Box::new(num("3")), Box::new(num("2")))),
    );
    assert_eq!(parse("2^(3*2)").unwrap(), expected);
}

#[test]
fn unary_signs_chain() {
    let expected = Node::Negative(Box::new(Node::Negative(Box::new(num("5")))));
    assert_eq!(parse("--5").unwrap(), expected);
    let expected = Node::Positive(Box::new(Node::Negative(Box::new(num("5")))));
    assert_eq!(parse("+-5").unwrap(), expected);
}

#[test]
fn stray_closing_paren_is_skipped() {
    assert_eq!(parse(")5").unwrap(), num("5"));
    assert_eq!(parse(")7+1").unwrap(), Node::Addition(Box::new(num("7")), Box::new(num("1"))));
}

#[test]
fn whitespace_between_numbers_is_rejected() {
    assert!(matches!(parse("1 2"), Err(ParseError::UnableToParse(_))));
}

#[test]
fn unclosed_group_is_rejected() {
    assert!(matches!(parse("(1+2"), Err(ParseError::InvalidOperator(_))));
}

#[test]
fn trailing_operator_is_rejected() {
    assert!(matches!(parse("1+"), Err(ParseError::InvalidOperator(_))));
}

#[test]
fn paren_directly_after_number_is_rejected() {
    assert!(matches!(parse("2(3)"), Err(ParseError::UnableToParse(_))));
}

#[test]
fn literal_with_two_points_is_rejected() {
    assert!(matches!(parse("1..2"), Err(ParseError::UnableToParse(_))));
    assert!(matches!(parse("1.2.3"), Err(ParseError::UnableToParse(_))));
}

#[test]
fn empty_input_is_rejected() {
    assert!(matches!(parse(""), Err(ParseError::InvalidOperator(_))));
}

#[test]
fn letters_are_rejected() {
    assert!(matches!(parse("abc"), Err(ParseError::InvalidOperator(_))));
}

#[test]
fn reparsing_yields_identical_trees() {
    let first = parse("1+2*3").unwrap();
    let second = parse("1+2*3").unwrap();
    assert_eq!(first, second);
    let first = parse("(1+2");
    let second = parse("(1+2");
    assert!(matches!(first, Err(ParseError::InvalidOperator(_))));
    assert!(matches!(second, Err(ParseError::InvalidOperator(_))));
}

#[test]
fn parser_type_drives_the_same_grammar() {
    let mut parser = Parser::new("4*5").unwrap();
    let tree = parser.parse().unwrap();
    let expected = Node::Multiplication(Box::new(num("4")), Box::new(num("5")));
    assert_eq!(tree, expected);
}

#[test]
fn parser_construction_fails_on_tokenization_failure() {
    assert!(matches!(Parser::new("2(3)"), Err(ParseError::UnableToParse(_))));
}

#[test]
fn tokenizer_produces_expected_sequence() {
    let mut tokenizer = Tokenizer::new("1.5+(2)");
    assert_eq!(tokenizer.next(), Some(Token::Number("1.5".to_string())));
    assert_eq!(tokenizer.next(), Some(Token::Plus));
    assert_eq!(tokenizer.next(), Some(Token::LParen));
    assert_eq!(tokenizer.next(), Some(Token::Number("2".to_string())));
    assert_eq!(tokenizer.next(), Some(Token::RParen));
    assert_eq!(tokenizer.next(), Some(Token::Eof));
    assert_eq!(tokenizer.next(), Some(Token::Eof));
}

#[test]
fn tokenizer_covers_every_operator() {
    let mut tokenizer = Tokenizer::new("+-*/^% x");
    assert_eq!(tokenizer.next(), Some(Token::Plus));
    assert_eq!(tokenizer.next(), Some(Token::Minus));
    assert_eq!(tokenizer.next(), Some(Token::Asterisk));
    assert_eq!(tokenizer.next(), Some(Token::Slash));
    assert_eq!(tokenizer.next(), Some(Token::Caret));
    assert_eq!(tokenizer.next(), Some(Token::Percent));
    assert_eq!(tokenizer.next(), Some(Token::Unrecognized));
    assert_eq!(tokenizer.next(), Some(Token::Unrecognized));
    assert_eq!(tokenizer.next(), Some(Token::Eof));
}

#[test]
fn tokenizer_fails_on_paren_after_number() {
    let mut tokenizer = Tokenizer::new("2(3)");
    assert_eq!(tokenizer.next(), None);
}

#[test]
fn nested_parentheses_parse() {
    let expected = Node::Multiplication(
        Box::new(Node::Addition(Box::new(num("1")), Box::new(num("2")))),
        Box::new(num("3")),
    );
    assert_eq!(parse("(1+2)*3").unwrap(), expected);
    assert_eq!(parse("((5))").unwrap(), num("5"));
}

#[test]
fn modulo_parses_at_the_multiplicative_tier() {
    let expected = Node::Modulo(
        Box::new(Node::Division(Box::new(num("8")), Box::new(num("2")))),
        Box::new(num("3")),
    );
    assert_eq!(parse("8/2%3").unwrap(), expected);
}

#[test]
fn paren_after_number_inside_expression_is_rejected() {
    assert!(matches!(parse("1+2(3)"), Err(ParseError::UnableToParse(_))));
}

#[test]
fn lone_closing_paren_is_rejected() {
    assert!(matches!(parse(")"), Err(ParseError::InvalidOperator(_))));
}

#[test]
fn trailing_percent_is_rejected() {
    assert!(matches!(parse("5%"), Err(ParseError::InvalidOperator(_))));
}

#[test]
fn error_message_carries_prefix() {
    let err = parse("1+").unwrap_err();
    assert_eq!(err.message(), "Error in evaluating Invalid operator");
    let err = parse("1 2").unwrap_err();
    assert_eq!(err.message(), "Error in evaluating Unable to parse");
}
