use expr_eval::common::PeekableIterator;
use expr_eval::lexer::tokenize;
use expr_eval::parser::evaluate;
use expr_eval::parser::parse_expr;
use expr_eval::parser::parse_expr_str;
use expr_eval::parser::ParseError;
use expr_eval::parser::TokenCursor;
use expr_eval::token::Token;

#[test]
fn test_parser() {
    assert!(parse_expr_str("1 + 1") == Ok(1 + 1));
    assert!(parse_expr_str("10 - 5") == Ok(10 - 5));
    assert!(parse_expr_str("2 * 5") == Ok(2 * 5));
    assert!(parse_expr_str("11 * 5 - 2") == Ok(11 * 5 - 2));
    assert!(parse_expr_str("11 * (5 - 2)") == Ok(11 * (5 - 2)));
    assert!(parse_expr_str("10 + (20 / 2)") == Ok(10 + (20 / 2)));
}

#[test]
fn precedence_binds_multiplication_tighter() {
    assert_eq!(evaluate("2+3*4"), Ok(14));
    assert_eq!(evaluate("(2+3)*4"), Ok(20));
}

#[test]
fn subtraction_is_left_associative() {
    assert_eq!(evaluate("10-5-2"), Ok(3));
}

#[test]
fn unary_chains() {
    assert_eq!(evaluate("--5"), Ok(5));
    assert_eq!(evaluate("-5+3"), Ok(-2));
    assert_eq!(evaluate("+5"), Ok(5));
    assert_eq!(evaluate("+-5"), Ok(-5));
}

#[test]
fn division_truncates_toward_zero() {
    assert_eq!(evaluate("7/2"), Ok(3));
    assert_eq!(evaluate("-7/2"), Ok(-3));
}

#[test]
fn error_cases() {
    assert_eq!(evaluate("(1+1"), Err(ParseError::UnmatchedParenthesis));
    assert_eq!(evaluate("1/0"), Err(ParseError::DivisionByZero));
    assert_eq!(evaluate(""), Err(ParseError::UnexpectedEndOfInput));
    assert_eq!(evaluate("1 1"), Err(ParseError::UnexpectedToken));
}

#[test]
fn more_error_cases() {
    assert_eq!(evaluate(")"), Err(ParseError::UnexpectedToken));
    assert_eq!(evaluate("a+1"), Err(ParseError::UnexpectedToken));
    assert_eq!(evaluate("1+"), Err(ParseError::UnexpectedEndOfInput));
    assert_eq!(evaluate("("), Err(ParseError::UnexpectedEndOfInput));
    assert_eq!(evaluate("(1+1]"), Err(ParseError::UnmatchedParenthesis));
    assert_eq!(evaluate("2*"), Err(ParseError::UnexpectedEndOfInput));
}

#[test]
fn nested_parentheses() {
    assert_eq!(evaluate("((2))"), Ok(2));
    assert_eq!(evaluate("( (1+2) * 3 )"), Ok(9));
}

#[test]
fn arithmetic_wraps_around() {
    assert_eq!(evaluate("2147483647+1"), Ok(-2147483648));
    assert_eq!(evaluate("2147483648"), Ok(-2147483648));
    assert_eq!(evaluate("-2147483648/-1"), Ok(-2147483648));
    assert_eq!(evaluate("0-2147483647-2"), Ok(2147483647));
}

#[test]
fn cursor_yields_in_order() {
    let mut cur = TokenCursor::new(tokenize("1+2"));
    assert!(matches!(cur.peek(), Some(Token::Int(1))));
    assert!(matches!(cur.next(), Some(Token::Int(1))));
    assert!(matches!(cur.next(), Some(Token::Other('+'))));
    assert!(matches!(cur.next(), Some(Token::Int(2))));
    assert!(cur.next().is_none());
    assert!(cur.peek().is_none());
}

#[test]
fn parse_expr_leaves_leftover_tokens() {
    let mut cur = TokenCursor::new(tokenize("1+2)"));
    assert_eq!(parse_expr(&mut cur), Ok(3));
    assert!(matches!(cur.peek(), Some(Token::Other(')'))));
}
