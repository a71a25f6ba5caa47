use hydrogen::errors::CompileError;
use hydrogen::lexical::{binary_precendence, tokenize, LitKind, Token};

fn toks(src: &str) -> Vec<Token> {
    tokenize(src)
        .expect("lexing failed")
        .into_iter()
        .map(|t| t.token)
        .collect()
}

#[test]
fn lexes_keywords_and_punctuation() {
    let ts = toks("fn main() -> i32 { return 42; }");
    assert_eq!(
        ts,
        vec![
            Token::FuncSig,
            Token::Ident(String::from("main")),
            Token::OpenParen,
            Token::CloseParen,
            Token::ReturnSig,
            Token::LitType(LitKind::Integer),
            Token::OpenBrace,
            Token::Return,
            Token::IntLiteral(String::from("42")),
            Token::SemiColon,
            Token::CloseBrace,
        ]
    );
}

#[test]
fn lexes_all_operators() {
    let ts = toks("+ - * / == >= <= > < || && = ;");
    assert_eq!(
        ts,
        vec![
            Token::Add,
            Token::Subtract,
            Token::Multiply,
            Token::Division,
            Token::Equality,
            Token::GreaterThanEqual,
            Token::LessThanEqual,
            Token::GreaterThan,
            Token::LessThan,
            Token::Or,
            Token::And,
            Token::Equal,
            Token::SemiColon,
        ]
    );
}

#[test]
fn collapses_else_if_into_one_token() {
    let ts = toks("} else if (x) {");
    assert_eq!(
        ts,
        vec![
            Token::CloseBrace,
            Token::ElseIf,
            Token::OpenParen,
            Token::Ident(String::from("x")),
            Token::CloseParen,
            Token::OpenBrace,
        ]
    );
    assert_eq!(ts.iter().filter(|t| matches!(t, Token::ElseIf)).count(), 1);
    assert_eq!(ts.iter().filter(|t| matches!(t, Token::Else)).count(), 0);
}

#[test]
fn lone_else_stays_else() {
    let ts = toks("else { }");
    assert_eq!(ts, vec![Token::Else, Token::OpenBrace, Token::CloseBrace]);
}

#[test]
fn lexes_boolean_literals() {
    let ts = toks("true false truth");
    assert_eq!(
        ts,
        vec![
            Token::BooleanLiteral(true),
            Token::BooleanLiteral(false),
            Token::Ident(String::from("truth")),
        ]
    );
}

#[test]
fn line_comments_are_discarded() {
    let ts = toks("let x // the rest is gone + * /\n= 1;");
    assert_eq!(
        ts,
        vec![
            Token::Let,
            Token::Ident(String::from("x")),
            Token::Equal,
            Token::IntLiteral(String::from("1")),
            Token::SemiColon,
        ]
    );
}

#[test]
fn block_comments_are_discarded() {
    let ts = toks("1 /* 2 * 3 */ 4");
    assert_eq!(
        ts,
        vec![
            Token::IntLiteral(String::from("1")),
            Token::IntLiteral(String::from("4")),
        ]
    );
}

#[test]
fn tracks_line_numbers() {
    let tokens = tokenize("let\n\nx\n= 1;").expect("lexing failed");
    let lines: Vec<i32> = tokens.iter().map(|t| t.line).collect();
    assert_eq!(lines, vec![1, 3, 4, 4, 4]);
}

#[test]
fn reports_invalid_character_with_line() {
    let r = tokenize("let x = 1;\n let y = @;");
    match r {
        Err(CompileError::InvalidChar { line }) => assert_eq!(line, 2),
        other => panic!("expected an invalid-character error, got {:?}", other),
    }
}

#[test]
fn unicode_letters_start_identifiers() {
    // A word starts at any alphabetic character but continues only over
    // ASCII letters and digits, so the accented letter starts a new word.
    let ts = toks("h\u{e9}llo");
    assert_eq!(
        ts,
        vec![
            Token::Ident(String::from("h")),
            Token::Ident(String::from("\u{e9}llo")),
        ]
    );
}

#[test]
fn unicode_whitespace_is_skipped() {
    let ts = toks("1\u{a0}2");
    assert_eq!(
        ts,
        vec![
            Token::IntLiteral(String::from("1")),
            Token::IntLiteral(String::from("2")),
        ]
    );
}

#[test]
fn precedence_table() {
    assert_eq!(binary_precendence(&Token::Add), 1);
    assert_eq!(binary_precendence(&Token::Subtract), 1);
    assert_eq!(binary_precendence(&Token::Or), 1);
    assert_eq!(binary_precendence(&Token::And), 1);
    assert_eq!(binary_precendence(&Token::GreaterThan), 1);
    assert_eq!(binary_precendence(&Token::LessThan), 1);
    assert_eq!(binary_precendence(&Token::GreaterThanEqual), 1);
    assert_eq!(binary_precendence(&Token::LessThanEqual), 1);
    assert_eq!(binary_precendence(&Token::Multiply), 2);
    assert_eq!(binary_precendence(&Token::Division), 2);
    assert_eq!(binary_precendence(&Token::Equality), 2);
}
