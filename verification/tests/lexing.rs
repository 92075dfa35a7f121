//! Behavior of the lexer: token kinds, lexemes, contents, positions, and
//! the error flag.

use calculator::lexer::{is_number, lex, Lexer};
use calculator::token::{end_token, Token, TokenKind, Value};

fn kinds(tokens: &[Token]) -> Vec<TokenKind> {
    tokens.iter().map(|t| t.kind).collect()
}

#[test]
fn single_number_token() {
    let (tokens, err) = lex(String::from("42"));
    assert!(!err);
    assert_eq!(tokens.len(), 1);
    assert_eq!(tokens[0].kind, TokenKind::Number);
    assert_eq!(tokens[0].lexeme, "42");
    assert_eq!(tokens[0].content, Value::Number(true));
    assert_eq!(tokens[0].pos, 0);
}

#[test]
fn number_with_fraction() {
    let (tokens, err) = lex(String::from("3.25"));
    assert!(!err);
    assert_eq!(tokens.len(), 1);
    assert_eq!(tokens[0].lexeme, "3.25");
    assert_eq!(tokens[0].content, Value::Number(true));
}

#[test]
fn trailing_dot_is_well_formed() {
    let (tokens, err) = lex(String::from("1."));
    assert!(!err);
    assert_eq!(tokens[0].content, Value::Number(true));
}

#[test]
fn leading_dot_is_well_formed() {
    let (tokens, err) = lex(String::from(".5"));
    assert!(!err);
    assert_eq!(tokens[0].content, Value::Number(true));
}

#[test]
fn two_dots_are_malformed() {
    let (tokens, err) = lex(String::from("1.2.3"));
    assert!(err);
    assert_eq!(tokens.len(), 1);
    assert_eq!(tokens[0].kind, TokenKind::Number);
    assert_eq!(tokens[0].lexeme, "1.2.3");
    assert_eq!(tokens[0].content, Value::Number(false));
}

#[test]
fn lone_dot_is_malformed() {
    let (tokens, err) = lex(String::from("."));
    assert!(err);
    assert_eq!(tokens[0].content, Value::Number(false));
}

#[test]
fn operators_and_positions() {
    let (tokens, err) = lex(String::from("1 + 2"));
    assert!(!err);
    assert_eq!(
        kinds(&tokens),
        vec![TokenKind::Number, TokenKind::Plus, TokenKind::Number]
    );
    assert_eq!(tokens[0].lexeme, "1");
    assert_eq!(tokens[0].pos, 0);
    assert_eq!(tokens[1].lexeme, "+");
    assert_eq!(tokens[1].content, Value::Char('+'));
    assert_eq!(tokens[1].pos, 2);
    assert_eq!(tokens[2].lexeme, "2");
    assert_eq!(tokens[2].pos, 4);
}

#[test]
fn all_single_character_tokens() {
    let (tokens, err) = lex(String::from("+-*/()"));
    assert!(!err);
    assert_eq!(
        kinds(&tokens),
        vec![
            TokenKind::Plus,
            TokenKind::Minus,
            TokenKind::Star,
            TokenKind::Slash,
            TokenKind::LParen,
            TokenKind::RParen,
        ]
    );
    for (i, t) in tokens.iter().enumerate() {
        assert_eq!(t.pos, i);
        assert_eq!(t.lexeme.len(), 1);
    }
}

#[test]
fn spaces_are_skipped() {
    let (tokens, err) = lex(String::from("  7   * 8 "));
    assert!(!err);
    assert_eq!(
        kinds(&tokens),
        vec![TokenKind::Number, TokenKind::Star, TokenKind::Number]
    );
    assert_eq!(tokens[0].pos, 2);
    assert_eq!(tokens[1].pos, 6);
    assert_eq!(tokens[2].pos, 8);
}

#[test]
fn unrecognized_character_yields_never() {
    let (tokens, err) = lex(String::from("1 @ 2"));
    // The lexer does not flag an unrecognized character; rejecting it is
    // the parser's business.
    assert!(!err);
    assert_eq!(tokens.len(), 3);
    assert_eq!(tokens[1].kind, TokenKind::Never);
    assert_eq!(tokens[1].lexeme, "@");
    assert_eq!(tokens[1].content, Value::Char('@'));
}

#[test]
fn empty_input_yields_no_tokens() {
    let (tokens, err) = lex(String::from(""));
    assert!(!err);
    assert!(tokens.is_empty());
}

#[test]
fn spaces_only_yield_no_tokens() {
    let (tokens, err) = lex(String::from("   "));
    assert!(!err);
    assert!(tokens.is_empty());
}

#[test]
fn relexing_a_number_lexeme_reproduces_the_token() {
    let (tokens, _) = lex(String::from("  12.5 + 3"));
    let number = &tokens[0];
    assert_eq!(number.kind, TokenKind::Number);
    assert_eq!(number.pos, 2);

    let (again, err) = lex(number.lexeme.clone());
    assert!(!err);
    assert_eq!(again.len(), 1);
    assert_eq!(again[0].kind, number.kind);
    assert_eq!(again[0].lexeme, number.lexeme);
    assert_eq!(again[0].content, number.content);
    assert_eq!(again[0].pos, 0);
}

#[test]
fn relexing_a_malformed_lexeme_reproduces_the_token() {
    let (tokens, err) = lex(String::from("9..9"));
    assert!(err);
    let (again, err_again) = lex(tokens[0].lexeme.clone());
    assert!(err_again);
    assert_eq!(again[0].content, tokens[0].content);
    assert_eq!(again[0].lexeme, tokens[0].lexeme);
}

#[test]
fn end_token_shape() {
    let t = end_token(7);
    assert_eq!(t.kind, TokenKind::End);
    assert_eq!(t.lexeme, "");
    assert_eq!(t.content, Value::Nothing);
    assert_eq!(t.pos, 7);
}

#[test]
fn number_characters() {
    assert!(is_number('0'));
    assert!(is_number('9'));
    assert!(is_number('.'));
    assert!(!is_number(' '));
    assert!(!is_number('+'));
    assert!(!is_number('x'));
}

#[test]
fn two_malformed_numbers_on_one_line() {
    let (tokens, err) = lex(String::from("1..2 3..4"));
    assert!(err);
    assert_eq!(tokens.len(), 2);
    assert_eq!(tokens[0].content, Value::Number(false));
    assert_eq!(tokens[1].content, Value::Number(false));
    assert_eq!(tokens[1].pos, 5);
}

#[test]
fn next_token_yields_end_forever_after_the_input() {
    let mut l = Lexer::new(String::from(" 7"));
    let first = l.next_token();
    assert_eq!(first.kind, TokenKind::Number);
    assert_eq!(first.pos, 1);

    let end = l.next_token();
    assert_eq!(end.kind, TokenKind::End);
    assert_eq!(end.lexeme, "");
    assert_eq!(end.content, Value::Nothing);
    assert_eq!(end.pos, 2);

    let end_again = l.next_token();
    assert_eq!(end_again.kind, TokenKind::End);
    assert_eq!(end_again.pos, 2);
}

#[test]
fn mixed_line_with_all_token_kinds() {
    let (tokens, err) = lex(String::from("(1.5 + 2) * .5 - 4 / x"));
    assert!(!err);
    assert_eq!(
        kinds(&tokens),
        vec![
            TokenKind::LParen,
            TokenKind::Number,
            TokenKind::Plus,
            TokenKind::Number,
            TokenKind::RParen,
            TokenKind::Star,
            TokenKind::Number,
            TokenKind::Minus,
            TokenKind::Number,
            TokenKind::Slash,
            TokenKind::Never,
        ]
    );
    assert_eq!(tokens[6].lexeme, ".5");
    assert_eq!(tokens[10].lexeme, "x");
}
