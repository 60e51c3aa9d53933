use expr_eval::lexer::tokenize;
use expr_eval::token::Token;

fn tok_eq(a: &Token, b: &Token) -> bool {
    match (a, b) {
        (Token::Int(x), Token::Int(y)) => x == y,
        (Token::Name(x), Token::Name(y)) => x == y,
        (Token::Other(x), Token::Other(y)) => x == y,
        _ => false,
    }
}

#[test]
fn test_lexer() {
    let stream = "+()_A1,23+!FOO!994 / a25*t1 1 + 1";
    let tokens = tokenize(stream);
    println!("{:?}", tokens);
    // '_' is not alphabetic, so it comes through as its own token and the
    // name after it starts at 'A': 19 tokens in all.
    assert!(tokens.len() == 19);
    assert!(tok_eq(&tokens[3], &Token::Other('_')));
    assert!(tok_eq(&tokens[4], &Token::Name(String::from("A1"))));
}

#[test]
fn digit_run_is_one_literal() {
    let tokens = tokenize("1234");
    assert_eq!(tokens.len(), 1);
    assert!(tok_eq(&tokens[0], &Token::Int(1234)));
}

#[test]
fn name_spans_whole_input() {
    let tokens = tokenize("a25");
    assert_eq!(tokens.len(), 1);
    assert!(tok_eq(&tokens[0], &Token::Name(String::from("a25"))));
}

#[test]
fn whitespace_leaves_no_token() {
    let spaced = tokenize("1 + 1");
    let dense = tokenize("1+1");
    assert_eq!(spaced.len(), dense.len());
    for k in 0..spaced.len() {
        assert!(tok_eq(&spaced[k], &dense[k]));
    }
    for t in &spaced {
        assert!(!tok_eq(t, &Token::Other(' ')));
    }
    assert_eq!(tokenize("").len(), 0);
    assert_eq!(tokenize("   ").len(), 0);
}

#[test]
fn operators_come_through_verbatim() {
    let tokens = tokenize("1+2");
    assert_eq!(tokens.len(), 3);
    assert!(tok_eq(&tokens[0], &Token::Int(1)));
    assert!(tok_eq(&tokens[1], &Token::Other('+')));
    assert!(tok_eq(&tokens[2], &Token::Int(2)));
}

#[test]
fn digit_then_letters_are_adjacent_tokens() {
    let tokens = tokenize("12ab");
    assert_eq!(tokens.len(), 2);
    assert!(tok_eq(&tokens[0], &Token::Int(12)));
    assert!(tok_eq(&tokens[1], &Token::Name(String::from("ab"))));
}

#[test]
fn unicode_letters_join_names() {
    let tokens = tokenize("héllo 京");
    assert_eq!(tokens.len(), 2);
    assert!(tok_eq(&tokens[0], &Token::Name(String::from("héllo"))));
    assert!(tok_eq(&tokens[1], &Token::Name(String::from("京"))));
}

#[test]
fn oversized_literal_wraps_modulo_2_to_the_64() {
    // 2^64 and 2^64 + 1
    let tokens = tokenize("18446744073709551616 18446744073709551617");
    assert_eq!(tokens.len(), 2);
    assert!(tok_eq(&tokens[0], &Token::Int(0)));
    assert!(tok_eq(&tokens[1], &Token::Int(1)));
}
