//! The token data model shared by the lexer and the parser.

use vstd::prelude::*;

verus! {

/// The classification of one lexical unit.
#[derive(Clone, Copy, Debug, PartialEq, Eq, Structural)]
pub enum TokenKind {
    Number,
    Never,
    End,
    Plus,
    Minus,
    Star,
    Slash,
    LParen,
    RParen,
}

/// The content carried by a token: the operator character for
/// single-character tokens, a numeric-literal marker for `Number` tokens, or
/// nothing for the synthetic `End` token.
///
/// A `Number` token's numeric value is determined by its lexeme; the `bool`
/// records whether that lexeme is a well-formed literal (at most one `.` and
/// at least one digit). A malformed literal stands for the value zero and
/// flags the whole lexing run as failed.
#[derive(Clone, Copy, Debug, PartialEq, Eq, Structural)]
pub enum Value {
    Char(char),
    Number(bool),
    Nothing,
}

/// One lexical unit: its kind, the exact source substring it was read from,
/// its content, and the zero-based character offset of its start in the
/// source line (used to place the error caret).
#[derive(Debug, PartialEq)]
pub struct Token {
    pub kind: TokenKind,
    pub lexeme: String,
    pub content: Value,
    pub pos: usize,
}

/// The mathematical value of a token: the same fields with the lexeme as a
/// character sequence.
pub ghost struct TokenView {
    pub kind: TokenKind,
    pub lexeme: Seq<char>,
    pub content: Value,
    pub pos: int,
}

impl View for Token {
    type V = TokenView;

    open spec fn view(&self) -> TokenView {
        TokenView {
            kind: self.kind,
            lexeme: self.lexeme@,
            content: self.content,
            pos: self.pos as int,
        }
    }
}

impl Clone for Token {
    fn clone(&self) -> (r: Self)
        ensures
            r@ == self@,
    {
        Token {
            kind: self.kind,
            lexeme: self.lexeme.clone(),
            content: self.content,
            pos: self.pos,
        }
    }
}

/// True of the four binary-operator kinds.
pub open spec fn spec_is_op_kind(k: TokenKind) -> bool {
    k == TokenKind::Plus || k == TokenKind::Minus || k == TokenKind::Star || k == TokenKind::Slash
}

/// Every operator token of the sequence carries at least its operator
/// character as its lexeme. The lexer always produces such tokens; the
/// parser reads the operator character out of the lexeme and relies on it
/// being there.
pub open spec fn spec_ops_ok(toks: Seq<TokenView>) -> bool {
    forall|k: int|
        0 <= k < toks.len() && spec_is_op_kind(#[trigger] toks[k].kind) ==> toks[k].lexeme.len()
            >= 1
}

/// The synthetic end-of-input token at a given position: kind `End`, an
/// empty lexeme, and no content.
pub open spec fn spec_end_token(pos: int) -> TokenView {
    TokenView {
        kind: TokenKind::End,
        lexeme: Seq::empty(),
        content: Value::Nothing,
        pos: pos,
    }
}

/// Builds the synthetic end-of-input token for a given position.
pub fn end_token(pos: usize) -> (t: Token)
    ensures
        t@ == spec_end_token(pos as int),
{
    let t = Token {
        kind: TokenKind::End,
        lexeme: String::new(),
        content: Value::Nothing,
        pos: pos,
    };
    proof {
        assert(t@.lexeme =~= Seq::<char>::empty());
        assert(t@ == spec_end_token(pos as int));
    }
    t
}

} // verus!
