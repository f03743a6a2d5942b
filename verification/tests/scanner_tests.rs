use rlox::scanner::Scanner;
use rlox::token::{Literal, TokenType};

#[test]
fn parse_empty() {
    let mut scanner = Scanner::new("".to_owned());
    scanner.scan_tokens();

    assert_eq!(scanner.tokens.len(), 1);
    assert_eq!(scanner.tokens[0].kind, TokenType::Eof);
}

#[test]
fn parse_error() {
    let mut scanner = Scanner::new("vackfdsf; \"".to_owned());
    scanner.scan_tokens();

    assert_eq!(scanner.has_error(), true);
    assert_eq!(scanner.tokens.len(), 3);
    assert_eq!(scanner.tokens[0].kind, TokenType::Identifier);
    assert_eq!(scanner.tokens[1].kind, TokenType::Semicolon);
    assert_eq!(scanner.tokens[2].kind, TokenType::Eof);
}

#[test]
fn parse_addition() {
    let mut scanner = Scanner::new("1 + 2".to_owned());
    scanner.scan_tokens();

    assert_eq!(scanner.tokens.len(), 4);
    assert_eq!(scanner.tokens[0].kind, TokenType::Number);
    assert_eq!(scanner.tokens[1].kind, TokenType::Plus);
    assert_eq!(scanner.tokens[2].kind, TokenType::Number);
    assert_eq!(scanner.tokens[3].kind, TokenType::Eof);
}

#[test]
fn parse_subtractions() {
    let mut scanner = Scanner::new("1 - 2".to_owned());
    scanner.scan_tokens();

    assert_eq!(scanner.tokens.len(), 4);
    assert_eq!(scanner.tokens[0].kind, TokenType::Number);
    match scanner.tokens[0].literal.as_ref().unwrap() {
        Literal::Number(text) => assert_eq!(text.parse::<f64>().unwrap(), 1.0),
        other => panic!("expected a number literal, got {:?}", other),
    }
    assert_eq!(scanner.tokens[1].kind, TokenType::Minus);
    assert_eq!(scanner.tokens[2].kind, TokenType::Number);
    match scanner.tokens[2].literal.as_ref().unwrap() {
        Literal::Number(text) => assert_eq!(text.parse::<f64>().unwrap(), 2.0),
        other => panic!("expected a number literal, got {:?}", other),
    }
    assert_eq!(scanner.tokens[3].kind, TokenType::Eof);
}

#[test]
fn parse_decimal() {
    let mut scanner = Scanner::new("1.3 - 2.2".to_owned());
    scanner.scan_tokens();

    assert_eq!(scanner.tokens.len(), 4);
    assert_eq!(scanner.tokens[0].kind, TokenType::Number);
    match scanner.tokens[0].literal.as_ref().unwrap() {
        Literal::Number(text) => assert_eq!(text.parse::<f64>().unwrap(), 1.3),
        other => panic!("expected a number literal, got {:?}", other),
    }
    assert_eq!(scanner.tokens[1].kind, TokenType::Minus);
    assert_eq!(scanner.tokens[2].kind, TokenType::Number);
    match scanner.tokens[2].literal.as_ref().unwrap() {
        Literal::Number(text) => assert_eq!(text.parse::<f64>().unwrap(), 2.2),
        other => panic!("expected a number literal, got {:?}", other),
    }
    assert_eq!(scanner.tokens[3].kind, TokenType::Eof);
}

#[test]
fn parse_string() {
    let mut scanner = Scanner::new("\"test\"".to_owned());
    scanner.scan_tokens();

    assert_eq!(scanner.tokens.len(), 2);
    assert_eq!(scanner.tokens[0].kind, TokenType::StringValue);
    assert_eq!(
        scanner.tokens[0].literal.as_ref().unwrap(),
        &Literal::Str("test".to_string())
    );
    assert_eq!(scanner.tokens[1].kind, TokenType::Eof);
}

#[test]
fn parse_variable_defintion() {
    let mut scanner = Scanner::new("var mytest = \"test\"".to_owned());
    scanner.scan_tokens();

    assert_eq!(scanner.tokens.len(), 5);
    assert_eq!(scanner.tokens[0].kind, TokenType::Var);
    assert_eq!(scanner.tokens[1].kind, TokenType::Identifier);
    assert_eq!(
        scanner.tokens[1].literal.as_ref().unwrap(),
        &Literal::Identifier("mytest".to_string())
    );
    assert_eq!(scanner.tokens[2].kind, TokenType::Equal);
    assert_eq!(scanner.tokens[3].kind, TokenType::StringValue);
    assert_eq!(
        scanner.tokens[3].literal.as_ref().unwrap(),
        &Literal::Str("test".to_string())
    );
    assert_eq!(scanner.tokens[4].kind, TokenType::Eof);
}
