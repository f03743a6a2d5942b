use rlox::errors::CompileError;
use rlox::lox::Lox;
use rlox::scanner::Scanner;
use rlox::token::{Literal, TokenType};

#[test]
fn scan_always_ends_with_eof() {
    let mut scanner = Scanner::new("(){} 12 foo \"s\" @".to_owned());
    scanner.scan_tokens();

    let last = scanner.tokens.last().unwrap();
    assert_eq!(last.kind, TokenType::Eof);
    assert_eq!(last.lexeme, "");
}

#[test]
fn empty_scan_no_diagnostics() {
    let mut scanner = Scanner::new("".to_owned());
    scanner.scan_tokens();

    assert_eq!(scanner.tokens.len(), 1);
    assert_eq!(scanner.tokens[0].kind, TokenType::Eof);
    assert_eq!(scanner.tokens[0].lexeme, "");
    assert_eq!(scanner.tokens[0].line, 1);
    assert_eq!(scanner.errors.len(), 0);
    assert_eq!(scanner.has_error(), false);
}

#[test]
fn keyword_while_not_identifier() {
    let mut scanner = Scanner::new("while".to_owned());
    scanner.scan_tokens();

    assert_eq!(scanner.tokens.len(), 2);
    assert_eq!(scanner.tokens[0].kind, TokenType::While);
    assert_eq!(scanner.tokens[0].literal, None);
    assert_eq!(scanner.tokens[1].kind, TokenType::Eof);
}

#[test]
fn all_reserved_words_hit_the_table() {
    let cases = vec![
        ("and", TokenType::And),
        ("class", TokenType::Class),
        ("else", TokenType::Else),
        ("false", TokenType::False),
        ("for", TokenType::For),
        ("fun", TokenType::Fun),
        ("if", TokenType::If),
        ("nil", TokenType::Nil),
        ("or", TokenType::Or),
        ("print", TokenType::Print),
        ("return", TokenType::Return),
        ("super", TokenType::Super),
        ("this", TokenType::This),
        ("true", TokenType::True),
        ("var", TokenType::Var),
        ("while", TokenType::While),
    ];
    for (word, kind) in cases {
        let mut scanner = Scanner::new(word.to_owned());
        scanner.scan_tokens();
        assert_eq!(scanner.tokens.len(), 2);
        assert_eq!(scanner.tokens[0].kind, kind);
        assert_eq!(scanner.tokens[0].lexeme, word);
    }
}

#[test]
fn near_keyword_is_identifier() {
    let mut scanner = Scanner::new("whilex _while While".to_owned());
    scanner.scan_tokens();

    assert_eq!(scanner.tokens.len(), 4);
    assert_eq!(scanner.tokens[0].kind, TokenType::Identifier);
    assert_eq!(scanner.tokens[1].kind, TokenType::Identifier);
    assert_eq!(scanner.tokens[2].kind, TokenType::Identifier);
    assert_eq!(scanner.tokens[3].kind, TokenType::Eof);
}

#[test]
fn unexpected_character_recovers() {
    let mut scanner = Scanner::new("1 @ 2".to_owned());
    scanner.scan_tokens();

    assert_eq!(scanner.errors.len(), 1);
    assert_eq!(scanner.errors[0].message, "Unexpected character.");
    assert_eq!(scanner.errors[0].location, "");
    assert_eq!(scanner.errors[0].line, 1);
    assert_eq!(scanner.tokens.len(), 3);
    assert_eq!(scanner.tokens[0].kind, TokenType::Number);
    assert_eq!(scanner.tokens[1].kind, TokenType::Number);
    assert_eq!(scanner.tokens[2].kind, TokenType::Eof);
}

#[test]
fn unterminated_string_no_token() {
    let mut scanner = Scanner::new("\"abc".to_owned());
    scanner.scan_tokens();

    assert_eq!(scanner.errors.len(), 1);
    assert_eq!(scanner.errors[0].message, "Unterminated string.");
    assert_eq!(scanner.tokens.len(), 1);
    assert_eq!(scanner.tokens[0].kind, TokenType::Eof);
}

#[test]
fn unterminated_string_reports_final_line() {
    let mut scanner = Scanner::new("\"a\nb".to_owned());
    scanner.scan_tokens();

    assert_eq!(scanner.errors.len(), 1);
    assert_eq!(scanner.errors[0].message, "Unterminated string.");
    assert_eq!(scanner.errors[0].line, 2);
}

#[test]
fn multiline_string_counts_lines() {
    let mut scanner = Scanner::new("\"a\nb\"".to_owned());
    scanner.scan_tokens();

    assert_eq!(scanner.errors.len(), 0);
    assert_eq!(scanner.tokens.len(), 2);
    assert_eq!(scanner.tokens[0].kind, TokenType::StringValue);
    assert_eq!(
        scanner.tokens[0].literal.as_ref().unwrap(),
        &Literal::Str("a\nb".to_string())
    );
    assert_eq!(scanner.tokens[0].line, 2);
}

#[test]
fn string_lexeme_keeps_quotes_payload_drops_them() {
    let mut scanner = Scanner::new("\"test\"".to_owned());
    scanner.scan_tokens();

    assert_eq!(scanner.tokens[0].lexeme, "\"test\"");
    assert_eq!(
        scanner.tokens[0].literal.as_ref().unwrap(),
        &Literal::Str("test".to_string())
    );
}

#[test]
fn rescan_yields_identical_lists() {
    let source = "var x = 1.5 // note\n\"s\n t\" @ while!=";
    let mut first = Scanner::new(source.to_owned());
    first.scan_tokens();
    let mut second = Scanner::new(source.to_owned());
    second.scan_tokens();

    assert_eq!(first.tokens, second.tokens);
    assert_eq!(first.errors, second.errors);
}

#[test]
fn two_character_operators() {
    let mut scanner = Scanner::new("!= == <= >=".to_owned());
    scanner.scan_tokens();

    assert_eq!(scanner.tokens.len(), 5);
    assert_eq!(scanner.tokens[0].kind, TokenType::BangEqual);
    assert_eq!(scanner.tokens[1].kind, TokenType::EqualEqual);
    assert_eq!(scanner.tokens[2].kind, TokenType::LessEqual);
    assert_eq!(scanner.tokens[3].kind, TokenType::GreaterEqual);
    assert_eq!(scanner.tokens[4].kind, TokenType::Eof);
}

#[test]
fn one_character_operators_when_no_equal_follows() {
    let mut scanner = Scanner::new("! = < > !==".to_owned());
    scanner.scan_tokens();

    assert_eq!(scanner.tokens.len(), 7);
    assert_eq!(scanner.tokens[0].kind, TokenType::Bang);
    assert_eq!(scanner.tokens[1].kind, TokenType::Equal);
    assert_eq!(scanner.tokens[2].kind, TokenType::Less);
    assert_eq!(scanner.tokens[3].kind, TokenType::Greater);
    assert_eq!(scanner.tokens[4].kind, TokenType::BangEqual);
    assert_eq!(scanner.tokens[5].kind, TokenType::Equal);
    assert_eq!(scanner.tokens[6].kind, TokenType::Eof);
}

#[test]
fn comment_discards_rest_of_line() {
    let mut scanner = Scanner::new("1 // rest ignored\n2".to_owned());
    scanner.scan_tokens();

    assert_eq!(scanner.errors.len(), 0);
    assert_eq!(scanner.tokens.len(), 3);
    assert_eq!(scanner.tokens[0].kind, TokenType::Number);
    assert_eq!(scanner.tokens[0].line, 1);
    assert_eq!(scanner.tokens[1].kind, TokenType::Number);
    assert_eq!(scanner.tokens[1].line, 2);
    assert_eq!(scanner.tokens[2].kind, TokenType::Eof);
}

#[test]
fn slash_alone_is_division() {
    let mut scanner = Scanner::new("3/4".to_owned());
    scanner.scan_tokens();

    assert_eq!(scanner.tokens.len(), 4);
    assert_eq!(scanner.tokens[0].kind, TokenType::Number);
    assert_eq!(scanner.tokens[1].kind, TokenType::Slash);
    assert_eq!(scanner.tokens[2].kind, TokenType::Number);
}

#[test]
fn trailing_dot_stays_out_of_the_number() {
    let mut scanner = Scanner::new("123.".to_owned());
    scanner.scan_tokens();

    assert_eq!(scanner.tokens.len(), 3);
    assert_eq!(scanner.tokens[0].kind, TokenType::Number);
    assert_eq!(scanner.tokens[0].lexeme, "123");
    assert_eq!(scanner.tokens[1].kind, TokenType::Dot);
    assert_eq!(scanner.tokens[2].kind, TokenType::Eof);
}

#[test]
fn fraction_consumes_maximal_digit_run() {
    let mut scanner = Scanner::new("12.345".to_owned());
    scanner.scan_tokens();

    assert_eq!(scanner.tokens.len(), 2);
    assert_eq!(scanner.tokens[0].kind, TokenType::Number);
    assert_eq!(scanner.tokens[0].lexeme, "12.345");
    match scanner.tokens[0].literal.as_ref().unwrap() {
        Literal::Number(text) => assert_eq!(text.parse::<f64>().unwrap(), 12.345),
        other => panic!("expected a number literal, got {:?}", other),
    }
}

#[test]
fn whitespace_is_discarded_silently() {
    let mut scanner = Scanner::new(" \r\t".to_owned());
    scanner.scan_tokens();

    assert_eq!(scanner.tokens.len(), 1);
    assert_eq!(scanner.tokens[0].kind, TokenType::Eof);
    assert_eq!(scanner.errors.len(), 0);
}

#[test]
fn newlines_advance_the_line_counter() {
    let mut scanner = Scanner::new("\n\n@".to_owned());
    scanner.scan_tokens();

    assert_eq!(scanner.errors.len(), 1);
    assert_eq!(scanner.errors[0].line, 3);
    assert_eq!(scanner.tokens.len(), 1);
    assert_eq!(scanner.tokens[0].line, 3);
}

#[test]
fn fresh_scanner_forgets_previous_errors() {
    let mut bad = Scanner::new("@".to_owned());
    bad.scan_tokens();
    assert_eq!(bad.has_error(), true);

    let mut good = Scanner::new("1 + 2".to_owned());
    good.scan_tokens();
    assert_eq!(good.has_error(), false);
}

#[test]
fn lox_run_returns_tokens_and_diagnostics() {
    let mut lox = Lox::new();
    let (tokens, errors) = lox.run("1 + 2".to_string());

    assert_eq!(errors.len(), 0);
    assert_eq!(tokens.len(), 4);
    assert_eq!(tokens[0].kind, TokenType::Number);
    assert_eq!(tokens[1].kind, TokenType::Plus);
    assert_eq!(tokens[2].kind, TokenType::Number);
    assert_eq!(tokens[3].kind, TokenType::Eof);
}

#[test]
fn lox_run_reports_errors_per_buffer() {
    let mut lox = Lox::new();
    let (_, errors) = lox.run("@".to_string());
    assert_eq!(errors.len(), 1);

    let (_, errors) = lox.run("nil".to_string());
    assert_eq!(errors.len(), 0);
}

#[test]
fn character_classes() {
    assert!(Scanner::is_digit(Some('0')));
    assert!(Scanner::is_digit(Some('9')));
    assert!(!Scanner::is_digit(Some('a')));
    assert!(!Scanner::is_digit(None));
    assert!(Scanner::is_alpha(Some('a')));
    assert!(Scanner::is_alpha(Some('Z')));
    assert!(Scanner::is_alpha(Some('_')));
    assert!(!Scanner::is_alpha(Some('1')));
    assert!(!Scanner::is_alpha(None));
    assert!(Scanner::is_alphanumeric(Some('x')));
    assert!(Scanner::is_alphanumeric(Some('5')));
    assert!(!Scanner::is_alphanumeric(Some(' ')));
}

#[test]
fn compile_error_new_keeps_fields() {
    let e = CompileError::new(3, "".to_string(), "Unexpected character.".to_string());
    assert_eq!(e.line, 3);
    assert_eq!(e.location, "");
    assert_eq!(e.message, "Unexpected character.");
}

#[test]
fn compile_error_renders_printed_form() {
    let e = CompileError::new(123, "".to_string(), "m".to_string());
    assert_eq!(e.render(), "[line 123] Error : m");
}

#[test]
fn scan_diagnostic_renders_printed_form() {
    let mut scanner = Scanner::new("@".to_owned());
    scanner.scan_tokens();

    assert_eq!(scanner.errors.len(), 1);
    assert_eq!(scanner.errors[0].render(), "[line 1] Error : Unexpected character.");
}

#[test]
fn decimal_text_exact_values() {
    assert_eq!(rlox::errors::decimal_text(0), "0");
    assert_eq!(rlox::errors::decimal_text(7), "7");
    assert_eq!(rlox::errors::decimal_text(10), "10");
    assert_eq!(rlox::errors::decimal_text(907), "907");
}
