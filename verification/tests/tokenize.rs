use lib::lexer::{tokenize, try_tokenize};
use lib::token::Token;

fn ident(s: &str) -> Token {
    Token::Ident(s.to_string())
}

#[test]
fn declaration_line() {
    assert_eq!(
        tokenize("Int x 5\n"),
        vec![ident("Int"), ident("x"), Token::Number("5".to_string()), Token::NewLine]
    );
}

#[test]
fn keywords_are_recognized() {
    assert_eq!(
        tokenize("Method Return Move Void Use As Inherit Do Until If Methods"),
        vec![
            Token::Method,
            Token::Return,
            Token::Move,
            Token::Void,
            Token::Use,
            Token::As,
            Token::Inherit,
            Token::Do,
            Token::Until,
            Token::If,
            ident("Methods"),
        ]
    );
}

#[test]
fn string_literal_with_escaped_quote() {
    assert_eq!(tokenize("\"a\\\"b c\""), vec![Token::String("a\"b c".to_string())]);
}

#[test]
fn number_literals_keep_their_text() {
    assert_eq!(
        tokenize("12.5 3. 4"),
        vec![
            Token::Number("12.5".to_string()),
            Token::Number("3.".to_string()),
            Token::Number("4".to_string()),
        ]
    );
}

#[test]
fn nine_is_not_a_digit() {
    assert!(try_tokenize("9").is_none());
    assert!(try_tokenize("19").is_none());
    assert_eq!(try_tokenize("\"9\""), Some(vec![Token::String("9".to_string())]));
}

#[test]
fn punctuation() {
    assert_eq!(
        tokenize("a.b()"),
        vec![ident("a"), Token::Dot, ident("b"), Token::LParens, Token::RParens]
    );
}

#[test]
fn tabs_count_only_at_line_start() {
    assert_eq!(tokenize("\tx"), vec![Token::Tab, ident("x")]);
    assert_eq!(tokenize("x\ty"), vec![ident("x"), ident("y")]);
    assert_eq!(
        tokenize("x\n\t\ty"),
        vec![ident("x"), Token::NewLine, Token::Tab, Token::Tab, ident("y")]
    );
}

#[test]
fn escaped_tab_at_line_start() {
    assert_eq!(tokenize("\\tx"), vec![Token::Tab, ident("x")]);
    assert_eq!(tokenize("a\n\\t\\tb"), vec![ident("a"), Token::NewLine, Token::Tab, Token::Tab, ident("b")]);
    // inside a line a backslash is skipped
    assert_eq!(tokenize("x \\ y"), vec![ident("x"), ident("y")]);
}

#[test]
fn rejected_texts() {
    assert!(try_tokenize("\"open").is_none());
    assert!(try_tokenize("\"a\\b\"").is_none());
    assert!(try_tokenize("#").is_none());
    assert!(try_tokenize("\\x").is_none());
    assert!(try_tokenize("\\").is_none());
    assert!(try_tokenize("x_y").is_none());
}

#[test]
fn empty_text() {
    assert_eq!(tokenize(""), Vec::<Token>::new());
    assert_eq!(tokenize("   "), Vec::<Token>::new());
}

#[test]
fn every_tab_token_starts_a_line() {
    let tokens = tokenize("a\tb\n\tc \\t d\n\\t\\te\n");
    for (i, t) in tokens.iter().enumerate() {
        if *t == Token::Tab {
            assert!(i == 0 || tokens[i - 1] == Token::Tab || tokens[i - 1] == Token::NewLine);
        }
    }
    assert_eq!(tokens.iter().filter(|t| **t == Token::Tab).count(), 3);
}
