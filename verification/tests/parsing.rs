//! Behavior of the parser: tree shapes, the error flag, diagnostics, and
//! the cursor's treatment of out-of-range token lookups.

use calculator::ast::Node;
use calculator::lexer::lex;
use calculator::parser::{parse, ParseErrorKind, Parser};
use calculator::token::TokenKind;

fn num(s: &str) -> Node {
    Node::NumberLit(String::from(s))
}

fn bin(a: Node, b: Node, op: char) -> Node {
    Node::Bin(Box::new(a), Box::new(b), op)
}

fn unary(a: Node, op: char) -> Node {
    Node::Unary(Box::new(a), op)
}

fn parse_line(line: &str) -> (Node, bool) {
    let (tokens, lex_err) = lex(String::from(line));
    assert!(!lex_err);
    parse(tokens, String::from(line))
}

#[test]
fn simple_sum() {
    let (node, err) = parse_line("1 + 2");
    assert!(!err);
    assert_eq!(node, bin(num("1"), num("2"), '+'));
}

#[test]
fn simple_difference() {
    let (node, err) = parse_line("8 - 3");
    assert!(!err);
    assert_eq!(node, bin(num("8"), num("3"), '-'));
}

#[test]
fn precedence_of_star_over_plus() {
    let (node, err) = parse_line("2 * 3 + 1");
    assert!(!err);
    assert_eq!(node, bin(bin(num("2"), num("3"), '*'), num("1"), '+'));
}

#[test]
fn star_after_plus_binds_tighter() {
    let (node, err) = parse_line("1 + 2 * 3");
    assert!(!err);
    assert_eq!(node, bin(num("1"), bin(num("2"), num("3"), '*'), '+'));
}

#[test]
fn parenthesized_group_binds_first() {
    let (node, err) = parse_line("(1 + 2) * 3");
    assert!(!err);
    assert_eq!(node, bin(bin(num("1"), num("2"), '+'), num("3"), '*'));
}

#[test]
fn division_by_zero_still_parses() {
    // The parser builds the quotient tree as written; only evaluation
    // treats a zero divisor specially.
    let (node, err) = parse_line("10 / 0");
    assert!(!err);
    assert_eq!(node, bin(num("10"), num("0"), '/'));
}

#[test]
fn unary_minus() {
    let (node, err) = parse_line("-5");
    assert!(!err);
    assert_eq!(node, unary(num("5"), '-'));
}

#[test]
fn unary_plus_around_negated_group() {
    let (node, err) = parse_line("+(-5)");
    assert!(!err);
    assert_eq!(node, unary(unary(num("5"), '-'), '+'));
}

#[test]
fn stacked_unary_operators() {
    let (node, err) = parse_line("--5");
    assert!(!err);
    assert_eq!(node, unary(unary(num("5"), '-'), '-'));
}

#[test]
fn one_step_grammar_leaves_a_longer_chain_unconsumed() {
    // The grammar combines one operator pair per precedence level and does
    // not complain about what follows the expression it built.
    let (node, err) = parse_line("1 + 2 + 3");
    assert!(!err);
    assert_eq!(node, bin(num("1"), num("2"), '+'));
}

#[test]
fn unclosed_parenthesis_fails_with_missing() {
    let (node, err) = parse_line("(1 + 2");
    assert!(err);
    assert_eq!(node, Node::Missing);
}

#[test]
fn unclosed_parenthesis_diagnostic() {
    let (tokens, _) = lex(String::from("(1 + 2"));
    let mut p = Parser::new(tokens, String::from("(1 + 2"));
    let node = p.exp();
    assert_eq!(node, Node::Missing);
    assert!(p.had_error());
    let diags = p.diagnostics();
    assert_eq!(diags.len(), 1);
    assert_eq!(diags[0].kind, ParseErrorKind::UnclosedParen);
    // Past the end of the tokens the offending position is the token
    // index, as the synthetic end token carries it.
    assert_eq!(diags[0].pos, 4);
    assert_eq!(diags[0].lexeme, "");
}

#[test]
fn unrecognized_token_diagnostic() {
    let (tokens, _) = lex(String::from("1 + @"));
    let mut p = Parser::new(tokens, String::from("1 + @"));
    let node = p.exp();
    assert_eq!(node, bin(num("1"), Node::Missing, '+'));
    assert!(p.had_error());
    let diags = p.diagnostics();
    assert_eq!(diags.len(), 1);
    assert_eq!(diags[0].kind, ParseErrorKind::NoExpressionNode);
    assert_eq!(diags[0].pos, 4);
    assert_eq!(diags[0].lexeme, "@");
}

#[test]
fn empty_token_sequence_fails_with_missing() {
    let (node, err) = parse(Vec::new(), String::from(""));
    assert!(err);
    assert_eq!(node, Node::Missing);
}

#[test]
fn cursor_past_the_end_reads_an_end_token() {
    let (tokens, _) = lex(String::from("1"));
    let mut p = Parser::new(tokens, String::from("1"));
    assert_eq!(p.token().kind, TokenKind::Number);
    p.advance();
    let t = p.token();
    assert_eq!(t.kind, TokenKind::End);
    assert_eq!(t.lexeme, "");
    assert_eq!(t.pos, 1);
}

#[test]
fn malformed_number_still_reaches_the_tree() {
    // The lexer flags the line but still hands the token over; parsing it
    // succeeds and carries the malformed lexeme.
    let (tokens, lex_err) = lex(String::from("1..2"));
    assert!(lex_err);
    let (node, parse_err) = parse(tokens, String::from("1..2"));
    assert!(!parse_err);
    assert_eq!(node, num("1..2"));
}

#[test]
fn premature_end_of_input() {
    let (tokens, _) = lex(String::from("1 +"));
    let mut p = Parser::new(tokens, String::from("1 +"));
    let node = p.exp();
    assert_eq!(node, bin(num("1"), Node::Missing, '+'));
    assert!(p.had_error());
    let diags = p.diagnostics();
    assert_eq!(diags.len(), 1);
    assert_eq!(diags[0].kind, ParseErrorKind::NoExpressionNode);
    assert_eq!(diags[0].pos, 2);
    assert_eq!(diags[0].lexeme, "");
}

#[test]
fn error_at_the_first_token_stops_the_whole_line() {
    // `factor` reports the unusable token without consuming it, so the
    // enclosing levels see it again and give up without a second report.
    let (tokens, _) = lex(String::from("@ + @"));
    let mut p = Parser::new(tokens, String::from("@ + @"));
    let node = p.exp();
    assert_eq!(node, Node::Missing);
    assert!(p.had_error());
    assert_eq!(p.diagnostics().len(), 1);
    assert_eq!(p.diagnostics()[0].lexeme, "@");
    assert_eq!(p.diagnostics()[0].pos, 0);
}
