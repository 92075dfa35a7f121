//! The parser: consumes the token sequence by recursive descent and builds
//! an expression tree.
//!
//! The grammar, lowest to highest precedence:
//!
//! ```text
//! exp    = term ( ('+' | '-') term )?
//! term   = factor ( ('*' | '/') factor )?
//! factor = '(' exp ')' | ('+' | '-') factor | NUMBER
//! ```
//!
//! Each precedence level combines at most one operator pair per call (the
//! one-step grammar, kept deliberately: it is not generalized to a
//! left-associative loop). A chain of three or more operators of equal
//! precedence therefore parses only its first pair, and whatever tokens
//! follow the parsed expression are left unconsumed without complaint.
//!
//! A parse error never unwinds: the failing position yields the `Missing`
//! sentinel, a diagnostic is recorded, and the error flag is set for the
//! whole run.

use vstd::prelude::*;

use crate::ast::{spec_contains_missing, Node, NodeView};
use crate::lexer::spec_views;
use crate::token::{end_token, spec_end_token, spec_ops_ok, Token, TokenKind, TokenView};

verus! {

/// What a parse diagnostic reports: a parenthesized expression whose `)`
/// never came, or a position where no expression node could be formed.
#[derive(Clone, Copy, Debug, PartialEq, Eq, Structural)]
pub enum ParseErrorKind {
    UnclosedParen,
    NoExpressionNode,
}

/// One parse diagnostic: what went wrong, the position for the error caret,
/// and the lexeme of the offending token.
#[derive(Debug, PartialEq)]
pub struct ParseDiag {
    pub kind: ParseErrorKind,
    pub pos: usize,
    pub lexeme: String,
}

/// The mathematical value of a parse diagnostic.
pub ghost struct ParseDiagView {
    pub kind: ParseErrorKind,
    pub pos: int,
    pub lexeme: Seq<char>,
}

impl View for ParseDiag {
    type V = ParseDiagView;

    open spec fn view(&self) -> ParseDiagView {
        ParseDiagView { kind: self.kind, pos: self.pos as int, lexeme: self.lexeme@ }
    }
}

/// The views of a sequence of parse diagnostics.
pub open spec fn spec_diag_views(ds: Seq<ParseDiag>) -> Seq<ParseDiagView> {
    ds.map_values(|d: ParseDiag| d@)
}

/// The token a parse cursor reads: the token at that index, or, past the
/// end of the sequence, the synthetic `End` token carrying the index itself
/// as its position.
pub open spec fn spec_token_at(toks: Seq<TokenView>, i: int) -> TokenView {
    if 0 <= i < toks.len() {
        toks[i]
    } else {
        spec_end_token(i)
    }
}

/// Clamps a cursor into the range a grammar step may leave it in. Every
/// reachable cursor already lies in that range (`lemma_exp_bounds` and its
/// companions), so the clamp never moves one; it only makes the grammar's
/// termination measure manifest.
pub open spec fn spec_clamp(lo: int, x: int, hi: int) -> int {
    if x < lo {
        lo
    } else if x > hi {
        hi
    } else {
        x
    }
}

/// The outcome of one grammar step: the tree built, the cursor after it,
/// and the diagnostics reported during it, in order.
pub ghost struct Parsed {
    pub node: NodeView,
    pub next: int,
    pub diags: Seq<ParseDiagView>,
}

/// The grammar's entry level: one `term`, then at most one `+` or `-`
/// combination with a second term.
pub open spec fn spec_exp(toks: Seq<TokenView>, i: int) -> Parsed
    decreases toks.len() - i, 2int
        when 0 <= i <= toks.len()
{
    let first = spec_term(toks, i);
    let j = spec_clamp(i, first.next, toks.len() as int);
    let op = spec_token_at(toks, j);
    if op.kind == TokenKind::Plus || op.kind == TokenKind::Minus {
        let second = spec_term(toks, j + 1);
        Parsed {
            node: NodeView::Bin(Box::new(first.node), Box::new(second.node), op.lexeme[0]),
            next: second.next,
            diags: first.diags + second.diags,
        }
    } else {
        first
    }
}

/// The grammar's middle level: one `factor`, then at most one `*` or `/`
/// combination with a second factor.
pub open spec fn spec_term(toks: Seq<TokenView>, i: int) -> Parsed
    decreases toks.len() - i, 1int
        when 0 <= i <= toks.len()
{
    let first = spec_factor(toks, i);
    let j = spec_clamp(i, first.next, toks.len() as int);
    let op = spec_token_at(toks, j);
    if op.kind == TokenKind::Star || op.kind == TokenKind::Slash {
        let second = spec_factor(toks, j + 1);
        Parsed {
            node: NodeView::Bin(Box::new(first.node), Box::new(second.node), op.lexeme[0]),
            next: second.next,
            diags: first.diags + second.diags,
        }
    } else {
        first
    }
}

/// The grammar's highest level: a parenthesized expression, a unary `+` or
/// `-` applied to a factor, or a numeric literal. Anything else — including
/// running out of tokens — is a parse error: the step stays put, reports a
/// diagnostic at the offending token, and yields the `Missing` sentinel. A
/// parenthesized expression whose `)` never comes likewise yields `Missing`
/// and a diagnostic, discarding the inner tree.
pub open spec fn spec_factor(toks: Seq<TokenView>, i: int) -> Parsed
    decreases toks.len() - i, 0int
        when 0 <= i <= toks.len()
{
    let tk = spec_token_at(toks, i);
    if tk.kind == TokenKind::LParen {
        let inner = spec_exp(toks, i + 1);
        let j = spec_clamp(i + 1, inner.next, toks.len() as int);
        let t2 = spec_token_at(toks, j);
        if t2.kind != TokenKind::RParen {
            Parsed {
                node: NodeView::Missing,
                next: j,
                diags: inner.diags.push(
                    ParseDiagView {
                        kind: ParseErrorKind::UnclosedParen,
                        pos: t2.pos,
                        lexeme: t2.lexeme,
                    },
                ),
            }
        } else {
            Parsed { node: inner.node, next: j + 1, diags: inner.diags }
        }
    } else if tk.kind == TokenKind::Plus || tk.kind == TokenKind::Minus {
        let operand = spec_factor(toks, i + 1);
        Parsed {
            node: NodeView::Unary(Box::new(operand.node), tk.lexeme[0]),
            next: operand.next,
            diags: operand.diags,
        }
    } else if tk.kind == TokenKind::Number {
        Parsed { node: NodeView::NumberLit(tk.lexeme), next: i + 1, diags: Seq::empty() }
    } else {
        Parsed {
            node: NodeView::Missing,
            next: i,
            diags: seq![
                ParseDiagView {
                    kind: ParseErrorKind::NoExpressionNode,
                    pos: tk.pos,
                    lexeme: tk.lexeme,
                },
            ],
        }
    }
}

/// Parsing a whole token sequence starts the grammar's entry level at the
/// first token.
pub open spec fn spec_parse(toks: Seq<TokenView>) -> Parsed {
    spec_exp(toks, 0)
}

/// A grammar step never moves the cursor backwards nor past the end.
pub proof fn lemma_exp_bounds(toks: Seq<TokenView>, i: int)
    requires
        0 <= i <= toks.len(),
    ensures
        i <= spec_exp(toks, i).next <= toks.len(),
    decreases toks.len() - i, 2int,
{
    lemma_term_bounds(toks, i);
    let j = spec_term(toks, i).next;
    let op = spec_token_at(toks, j);
    if op.kind == TokenKind::Plus || op.kind == TokenKind::Minus {
        lemma_term_bounds(toks, j + 1);
    }
}

/// A grammar step never moves the cursor backwards nor past the end.
pub proof fn lemma_term_bounds(toks: Seq<TokenView>, i: int)
    requires
        0 <= i <= toks.len(),
    ensures
        i <= spec_term(toks, i).next <= toks.len(),
    decreases toks.len() - i, 1int,
{
    lemma_factor_bounds(toks, i);
    let j = spec_factor(toks, i).next;
    let op = spec_token_at(toks, j);
    if op.kind == TokenKind::Star || op.kind == TokenKind::Slash {
        lemma_factor_bounds(toks, j + 1);
    }
}

/// A grammar step never moves the cursor backwards nor past the end.
pub proof fn lemma_factor_bounds(toks: Seq<TokenView>, i: int)
    requires
        0 <= i <= toks.len(),
    ensures
        i <= spec_factor(toks, i).next <= toks.len(),
    decreases toks.len() - i, 0int,
{
    let tk = spec_token_at(toks, i);
    if tk.kind == TokenKind::LParen {
        lemma_exp_bounds(toks, i + 1);
    } else if tk.kind == TokenKind::Plus || tk.kind == TokenKind::Minus {
        lemma_factor_bounds(toks, i + 1);
    }
}

/// The parser's working state: the token sequence, the source line it came
/// from, the token cursor, the error flag for the run, and the diagnostics
/// reported so far.
pub struct Parser {
    input: Vec<Token>,
    code: String,
    cursor: usize,
    had_error: bool,
    diags: Vec<ParseDiag>,
}

impl Parser {
    /// The views of the tokens being parsed.
    pub closed spec fn spec_toks(&self) -> Seq<TokenView> {
        spec_views(self.input@)
    }

    /// The token cursor.
    pub closed spec fn spec_cursor(&self) -> int {
        self.cursor as int
    }

    /// The error flag for the run so far.
    pub closed spec fn spec_had_error(&self) -> bool {
        self.had_error
    }

    /// The views of the diagnostics reported so far.
    pub closed spec fn spec_diags(&self) -> Seq<ParseDiagView> {
        spec_diag_views(self.diags@)
    }

    /// The source line the tokens came from.
    pub closed spec fn spec_code(&self) -> Seq<char> {
        self.code@
    }

    /// The cursor never passes the end of the sequence, and every operator
    /// token carries its character as its lexeme (as the lexer guarantees).
    pub closed spec fn wf(&self) -> bool {
        self.cursor <= self.input@.len() && spec_ops_ok(self.spec_toks())
    }

    /// Starts a parse of the given tokens, read out of the given source
    /// line: cursor at the first token, no error and no diagnostic yet.
    pub fn new(input: Vec<Token>, code: String) -> (p: Parser)
        requires
            spec_ops_ok(spec_views(input@)),
        ensures
            p.wf(),
            p.spec_toks() == spec_views(input@),
            p.spec_cursor() == 0,
            !p.spec_had_error(),
            p.spec_diags() == Seq::<ParseDiagView>::empty(),
            p.spec_code() == code@,
    {
        let p = Parser { input: input, code: code, cursor: 0, had_error: false, diags: Vec::new() };
        proof {
            assert(p.spec_diags() =~= Seq::<ParseDiagView>::empty());
        }
        p
    }

    /// Moves the cursor one token ahead.
    pub fn advance(&mut self)
        requires
            old(self).spec_cursor() < old(self).spec_toks().len(),
        ensures
            final(self).spec_toks() == old(self).spec_toks(),
            final(self).spec_code() == old(self).spec_code(),
            final(self).spec_cursor() == old(self).spec_cursor() + 1,
            final(self).spec_had_error() == old(self).spec_had_error(),
            final(self).spec_diags() == old(self).spec_diags(),
            old(self).wf() ==> final(self).wf(),
    {
        let n = self.input.len();
        proof {
            assert(self.cursor < n);
        }
        self.cursor = self.cursor + 1
    }

    /// True once the cursor has passed the last token.
    pub fn is_at_end(&self) -> (r: bool)
        ensures
            r == (self.spec_cursor() >= self.spec_toks().len()),
    {
        self.cursor >= self.input.len()
    }

    /// The token under the cursor, or, past the end of the sequence, the
    /// synthetic `End` token carrying the cursor itself as its position —
    /// an out-of-range lookup never faults.
    pub fn token(&self) -> (t: Token)
        ensures
            t@ == spec_token_at(self.spec_toks(), self.spec_cursor()),
    {
        if self.is_at_end() {
            return end_token(self.cursor);
        }
        let t = (&self.input[self.cursor]).clone();
        proof {
            assert(spec_views(self.input@)[self.spec_cursor()] == self.input@[self.spec_cursor()]@);
        }
        t
    }

    /// True when the token under the cursor has one of the given kinds.
    pub fn token_equal_any(&self, kinds: &[TokenKind]) -> (r: bool)
        ensures
            r == exists|k: int|
                0 <= k < kinds@.len() && spec_token_at(self.spec_toks(), self.spec_cursor()).kind
                    == kinds@[k],
    {
        let t = self.token();
        let mut i: usize = 0;
        while i < kinds.len()
            invariant
                i <= kinds@.len(),
                t@ == spec_token_at(self.spec_toks(), self.spec_cursor()),
                forall|k: int| 0 <= k < i ==> t@.kind != kinds@[k],
            decreases kinds@.len() - i,
        {
            if t.kind == kinds[i] {
                return true;
            }
            i = i + 1;
        }
        false
    }

    /// Records a diagnostic for the offending token and flags the whole run
    /// as failed. Rendering the message and the caret is the caller's
    /// concern.
    fn report_error(&mut self, kind: ParseErrorKind, tok: Token)
        ensures
            final(self).spec_toks() == old(self).spec_toks(),
            final(self).spec_code() == old(self).spec_code(),
            final(self).spec_cursor() == old(self).spec_cursor(),
            final(self).spec_had_error(),
            final(self).spec_diags() == old(self).spec_diags().push(
                ParseDiagView { kind: kind, pos: tok.pos as int, lexeme: tok.lexeme@ },
            ),
            old(self).wf() ==> final(self).wf(),
    {
        let ghost before = self.spec_diags();
        self.had_error = true;
        let d = ParseDiag { kind: kind, pos: tok.pos, lexeme: tok.lexeme };
        let ghost dv = d@;
        self.diags.push(d);
        proof {
            assert(self.spec_diags() =~= before.push(dv));
        }
    }

    /// The grammar's entry level; see the module description. Appends this
    /// step's diagnostics to those already recorded and sets the error flag
    /// exactly when the step reported any.
    pub fn exp(&mut self) -> (r: Node)
        requires
            old(self).wf(),
        ensures
            final(self).wf(),
            final(self).spec_toks() == old(self).spec_toks(),
            final(self).spec_code() == old(self).spec_code(),
            ({
                let p = spec_exp(old(self).spec_toks(), old(self).spec_cursor());
                &&& r@ == p.node
                &&& final(self).spec_cursor() == p.next
                &&& final(self).spec_diags() == old(self).spec_diags() + p.diags
                &&& final(self).spec_had_error() == (old(self).spec_had_error() || p.diags.len()
                    > 0)
            }),
        decreases old(self).spec_toks().len() - old(self).spec_cursor(), 2int,
    {
        let ghost toks = self.spec_toks();
        let ghost i = self.spec_cursor();
        proof {
            lemma_term_bounds(toks, i);
        }
        let mut e = self.term();
        if self.token_equal_any(&[TokenKind::Plus, TokenKind::Minus]) {
            let op = self.token();
            self.advance();
            proof {
                lemma_term_bounds(toks, self.spec_cursor());
            }
            let right = self.term();
            e = Node::Bin(Box::new(e), Box::new(right), op.lexeme.as_str().get_char(0));
            proof {
                let first = spec_term(toks, i);
                let second = spec_term(toks, spec_clamp(i, first.next, toks.len() as int) + 1);
                assert(old(self).spec_diags() + (first.diags + second.diags) =~= (old(
                    self,
                ).spec_diags() + first.diags) + second.diags);
            }
        }
        e
    }

    /// The grammar's middle level; see the module description.
    pub fn term(&mut self) -> (r: Node)
        requires
            old(self).wf(),
        ensures
            final(self).wf(),
            final(self).spec_toks() == old(self).spec_toks(),
            final(self).spec_code() == old(self).spec_code(),
            ({
                let p = spec_term(old(self).spec_toks(), old(self).spec_cursor());
                &&& r@ == p.node
                &&& final(self).spec_cursor() == p.next
                &&& final(self).spec_diags() == old(self).spec_diags() + p.diags
                &&& final(self).spec_had_error() == (old(self).spec_had_error() || p.diags.len()
                    > 0)
            }),
        decreases old(self).spec_toks().len() - old(self).spec_cursor(), 1int,
    {
        let ghost toks = self.spec_toks();
        let ghost i = self.spec_cursor();
        proof {
            lemma_factor_bounds(toks, i);
        }
        let mut e = self.factor();
        if self.token_equal_any(&[TokenKind::Star, TokenKind::Slash]) {
            let op = self.token();
            self.advance();
            proof {
                lemma_factor_bounds(toks, self.spec_cursor());
            }
            let right = self.factor();
            e = Node::Bin(Box::new(e), Box::new(right), op.lexeme.as_str().get_char(0));
            proof {
                let first = spec_factor(toks, i);
                let second = spec_factor(toks, spec_clamp(i, first.next, toks.len() as int) + 1);
                assert(old(self).spec_diags() + (first.diags + second.diags) =~= (old(
                    self,
                ).spec_diags() + first.diags) + second.diags);
            }
        }
        e
    }

    /// The grammar's highest level; see the module description.
    pub fn factor(&mut self) -> (r: Node)
        requires
            old(self).wf(),
        ensures
            final(self).wf(),
            final(self).spec_toks() == old(self).spec_toks(),
            final(self).spec_code() == old(self).spec_code(),
            ({
                let p = spec_factor(old(self).spec_toks(), old(self).spec_cursor());
                &&& r@ == p.node
                &&& final(self).spec_cursor() == p.next
                &&& final(self).spec_diags() == old(self).spec_diags() + p.diags
                &&& final(self).spec_had_error() == (old(self).spec_had_error() || p.diags.len()
                    > 0)
            }),
        decreases old(self).spec_toks().len() - old(self).spec_cursor(), 0int,
    {
        let ghost toks = self.spec_toks();
        let ghost i = self.spec_cursor();
        let tk = self.token();

        if tk.kind == TokenKind::LParen {
            self.advance();
            proof {
                lemma_exp_bounds(toks, self.spec_cursor());
            }
            let e = self.exp();
            let closing = self.token();
            if closing.kind != TokenKind::RParen {
                self.report_error(ParseErrorKind::UnclosedParen, closing);
                proof {
                    let p = spec_factor(toks, i);
                    let inner = spec_exp(toks, i + 1);
                    assert(old(self).spec_diags() + inner.diags.push(p.diags.last()) =~= (old(
                        self,
                    ).spec_diags() + inner.diags).push(p.diags.last()));
                    assert(old(self).spec_diags() + p.diags =~= (old(self).spec_diags()
                        + inner.diags).push(p.diags.last()));
                }
                return Node::Missing;
            }
            self.advance();
            return e;
        }

        if self.token_equal_any(&[TokenKind::Plus, TokenKind::Minus]) {
            self.advance();
            proof {
                lemma_factor_bounds(toks, self.spec_cursor());
            }
            let operand = self.factor();
            return Node::Unary(Box::new(operand), tk.lexeme.as_str().get_char(0));
        }

        if tk.kind == TokenKind::Number {
            self.advance();
            proof {
                assert(self.spec_diags() =~= old(self).spec_diags() + Seq::<
                    ParseDiagView,
                >::empty());
            }
            return Node::NumberLit(tk.lexeme);
        }

        self.report_error(ParseErrorKind::NoExpressionNode, tk);
        proof {
            let p = spec_factor(toks, i);
            assert(old(self).spec_diags() + p.diags =~= old(self).spec_diags().push(p.diags[0]));
        }
        Node::Missing
    }

    /// The error flag for the run so far.
    pub fn had_error(&self) -> (r: bool)
        ensures
            r == self.spec_had_error(),
    {
        self.had_error
    }

    /// The diagnostics reported so far, in order.
    pub fn diagnostics(&self) -> (r: &Vec<ParseDiag>)
        ensures
            spec_diag_views(r@) == self.spec_diags(),
    {
        &self.diags
    }
}

/// Parses a token sequence, read out of the given source line, into an
/// expression tree. Returns the tree that `spec_parse` ascribes to the
/// sequence and the error flag: true exactly when the parse reported a
/// diagnostic, in which case the tree holds the `Missing` sentinel at each
/// failing position and the caller is expected to discard it.
pub fn parse(input: Vec<Token>, code: String) -> (r: (Node, bool))
    requires
        spec_ops_ok(spec_views(input@)),
    ensures
        ({
            let p = spec_parse(spec_views(input@));
            &&& r.0@ == p.node
            &&& r.1 == (p.diags.len() > 0)
        }),
{
    let mut l = Parser::new(input, code);
    let node = l.exp();
    let had = l.had_error();
    (node, had)
}

/// Law: a grammar step's tree holds the `Missing` sentinel exactly when
/// the step reported a diagnostic.
pub proof fn lemma_exp_missing_iff_error(toks: Seq<TokenView>, i: int)
    requires
        0 <= i <= toks.len(),
    ensures
        spec_contains_missing(spec_exp(toks, i).node) <==> spec_exp(toks, i).diags.len() > 0,
    decreases toks.len() - i, 2int,
{
    lemma_term_bounds(toks, i);
    lemma_term_missing_iff_error(toks, i);
    let first = spec_term(toks, i);
    let j = spec_clamp(i, first.next, toks.len() as int);
    let op = spec_token_at(toks, j);
    if op.kind == TokenKind::Plus || op.kind == TokenKind::Minus {
        lemma_term_missing_iff_error(toks, j + 1);
    }
}

/// Law: a grammar step's tree holds the `Missing` sentinel exactly when
/// the step reported a diagnostic.
pub proof fn lemma_term_missing_iff_error(toks: Seq<TokenView>, i: int)
    requires
        0 <= i <= toks.len(),
    ensures
        spec_contains_missing(spec_term(toks, i).node) <==> spec_term(toks, i).diags.len() > 0,
    decreases toks.len() - i, 1int,
{
    lemma_factor_bounds(toks, i);
    lemma_factor_missing_iff_error(toks, i);
    let first = spec_factor(toks, i);
    let j = spec_clamp(i, first.next, toks.len() as int);
    let op = spec_token_at(toks, j);
    if op.kind == TokenKind::Star || op.kind == TokenKind::Slash {
        lemma_factor_missing_iff_error(toks, j + 1);
    }
}

/// Law: a grammar step's tree holds the `Missing` sentinel exactly when
/// the step reported a diagnostic.
pub proof fn lemma_factor_missing_iff_error(toks: Seq<TokenView>, i: int)
    requires
        0 <= i <= toks.len(),
    ensures
        spec_contains_missing(spec_factor(toks, i).node) <==> spec_factor(toks, i).diags.len()
            > 0,
    decreases toks.len() - i, 0int,
{
    let tk = spec_token_at(toks, i);
    if tk.kind == TokenKind::LParen {
        lemma_exp_bounds(toks, i + 1);
        lemma_exp_missing_iff_error(toks, i + 1);
    } else if tk.kind == TokenKind::Plus || tk.kind == TokenKind::Minus {
        lemma_factor_missing_iff_error(toks, i + 1);
    }
}

/// Law: a whole parse flags an error exactly when the tree it yields holds
/// the `Missing` sentinel somewhere — a failed parse is never silent, and a
/// clean parse never hands back a `Missing`-marked tree.
pub proof fn lemma_parse_missing_iff_error(toks: Seq<TokenView>)
    ensures
        spec_contains_missing(spec_parse(toks).node) <==> spec_parse(toks).diags.len() > 0,
{
    lemma_exp_missing_iff_error(toks, 0);
}

} // verus!
