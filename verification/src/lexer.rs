//! The lexer: scans a line of source text left to right and produces the
//! flat token sequence the parser consumes.
//!
//! Spaces are skipped; `+ - * / ( )` become single-character tokens; a
//! maximal run of digits and dots becomes one `Number` token; any other
//! character becomes a `Never` token, left for the parser to reject. A run
//! of digits and dots that is not a well-formed literal (more than one dot,
//! or no digit at all) still yields a `Number` token, but flags the run as
//! failed; the caller is expected to abandon the line.

use vstd::prelude::*;

use crate::token::{spec_end_token, spec_ops_ok, Token, TokenKind, TokenView, Value};

verus! {

/// True of the characters a numeric literal is made of: the decimal digits
/// and the dot.
pub open spec fn spec_is_number(c: char) -> bool {
    spec_is_digit(c) || c == '.'
}

/// True of the decimal digits.
pub open spec fn spec_is_digit(c: char) -> bool {
    '0' <= c && c <= '9'
}

/// Recognizes the characters a numeric literal is made of.
pub fn is_number(c: char) -> (r: bool)
    ensures
        r == spec_is_number(c),
{
    ('0' <= c && c <= '9') || c == '.'
}

/// How many dots a character sequence holds.
pub open spec fn spec_dots(s: Seq<char>) -> int
    decreases s.len(),
{
    if s.len() == 0 {
        0
    } else {
        spec_dots(s.drop_last()) + if s.last() == '.' {
            1int
        } else {
            0int
        }
    }
}

/// How many decimal digits a character sequence holds.
pub open spec fn spec_digits(s: Seq<char>) -> int
    decreases s.len(),
{
    if s.len() == 0 {
        0
    } else {
        spec_digits(s.drop_last()) + if spec_is_digit(s.last()) {
            1int
        } else {
            0int
        }
    }
}

/// A numeric literal is well formed when it holds at most one dot and at
/// least one digit; over the digit-and-dot alphabet these are exactly the
/// strings that read as a number.
pub open spec fn spec_number_ok(s: Seq<char>) -> bool {
    spec_dots(s) <= 1 && spec_digits(s) >= 1
}

/// The first position at or after `i` that does not hold a space, or the
/// end of the input.
pub open spec fn spec_skip_spaces(s: Seq<char>, i: int) -> int
    decreases s.len() - i
        when 0 <= i <= s.len()
{
    if i == s.len() {
        i
    } else if s[i] == ' ' {
        spec_skip_spaces(s, i + 1)
    } else {
        i
    }
}

/// The first position at or after `i` that does not hold a literal
/// character, or the end of the input: where the numeric run starting at
/// `i` ends.
pub open spec fn spec_run_end(s: Seq<char>, i: int) -> int
    decreases s.len() - i
        when 0 <= i <= s.len()
{
    if i == s.len() {
        i
    } else if spec_is_number(s[i]) {
        spec_run_end(s, i + 1)
    } else {
        i
    }
}

pub proof fn lemma_skip_spaces_bounds(s: Seq<char>, i: int)
    requires
        0 <= i <= s.len(),
    ensures
        i <= spec_skip_spaces(s, i) <= s.len(),
        spec_skip_spaces(s, i) < s.len() ==> s[spec_skip_spaces(s, i)] != ' ',
    decreases s.len() - i,
{
    if i < s.len() && s[i] == ' ' {
        lemma_skip_spaces_bounds(s, i + 1);
    }
}

pub proof fn lemma_run_end_bounds(s: Seq<char>, i: int)
    requires
        0 <= i <= s.len(),
    ensures
        i <= spec_run_end(s, i) <= s.len(),
        i < s.len() && spec_is_number(s[i]) ==> spec_run_end(s, i) > i,
        forall|k: int| i <= k < spec_run_end(s, i) ==> spec_is_number(s[k]),
        spec_run_end(s, i) < s.len() ==> !spec_is_number(s[spec_run_end(s, i)]),
    decreases s.len() - i,
{
    if i < s.len() && spec_is_number(s[i]) {
        lemma_run_end_bounds(s, i + 1);
    }
}

/// The view of a single-character token: the character is both the lexeme
/// and the content.
pub open spec fn spec_char_token(kind: TokenKind, c: char, pos: int) -> TokenView {
    TokenView { kind: kind, lexeme: seq![c], content: Value::Char(c), pos: pos }
}

/// The view of a numeric-literal token: the run of characters is the
/// lexeme, and the content records whether it is a well-formed literal.
pub open spec fn spec_number_token(lexeme: Seq<char>, pos: int) -> TokenView {
    TokenView {
        kind: TokenKind::Number,
        lexeme: lexeme,
        content: Value::Number(spec_number_ok(lexeme)),
        pos: pos,
    }
}

/// The next token of `s` when the scan stands at `i`, together with the
/// scan position after it. Spaces are skipped first; at the end of the
/// input the synthetic `End` token is produced in place.
pub open spec fn spec_next_token(s: Seq<char>, i: int) -> (TokenView, int) {
    let j = spec_skip_spaces(s, i);
    if j >= s.len() {
        (spec_end_token(j), j)
    } else {
        let c = s[j];
        if c == '+' {
            (spec_char_token(TokenKind::Plus, c, j), j + 1)
        } else if c == '-' {
            (spec_char_token(TokenKind::Minus, c, j), j + 1)
        } else if c == '*' {
            (spec_char_token(TokenKind::Star, c, j), j + 1)
        } else if c == '/' {
            (spec_char_token(TokenKind::Slash, c, j), j + 1)
        } else if c == '(' {
            (spec_char_token(TokenKind::LParen, c, j), j + 1)
        } else if c == ')' {
            (spec_char_token(TokenKind::RParen, c, j), j + 1)
        } else if spec_is_number(c) {
            let k = spec_run_end(s, j);
            (spec_number_token(s.subrange(j, k), j), k)
        } else {
            (spec_char_token(TokenKind::Never, c, j), j + 1)
        }
    }
}

pub proof fn lemma_next_token_bounds(s: Seq<char>, i: int)
    requires
        0 <= i <= s.len(),
    ensures
        ({
            let (t, n) = spec_next_token(s, i);
            &&& i <= n <= s.len()
            &&& (t.kind != TokenKind::End ==> n > i)
            &&& (t.kind == TokenKind::End <==> spec_skip_spaces(s, i) == s.len())
        }),
{
    lemma_skip_spaces_bounds(s, i);
    let j = spec_skip_spaces(s, i);
    if j < s.len() {
        lemma_run_end_bounds(s, j);
    }
}

/// The whole token sequence of `s` from scan position `i` on, in input
/// order. The synthetic `End` token terminates the scan and is not part of
/// the sequence.
pub open spec fn spec_tokens(s: Seq<char>, i: int) -> Seq<TokenView>
    decreases s.len() - i
        when 0 <= i <= s.len()
        via spec_tokens_decreases
{
    let (t, n) = spec_next_token(s, i);
    if t.kind == TokenKind::End {
        Seq::empty()
    } else {
        seq![t] + spec_tokens(s, n)
    }
}

#[via_fn]
proof fn spec_tokens_decreases(s: Seq<char>, i: int) {
    lemma_next_token_bounds(s, i);
}

/// True when some token of the sequence is a malformed numeric literal:
/// exactly then has the lexing run failed.
pub open spec fn spec_has_bad_number(toks: Seq<TokenView>) -> bool {
    exists|k: int| 0 <= k < toks.len() && toks[k].content == Value::Number(false)
}

/// The shape every token produced by the lexer has: no `End` token is
/// emitted; a single-character token carries its character as lexeme and
/// content; a `Number` token carries a nonempty run of digits and dots as
/// its lexeme and records in its content whether that run is well formed.
pub open spec fn spec_token_shape(t: TokenView) -> bool {
    &&& t.kind != TokenKind::End
    &&& (t.kind == TokenKind::Number ==> {
        &&& t.lexeme.len() >= 1
        &&& (forall|k: int| 0 <= k < t.lexeme.len() ==> spec_is_number(t.lexeme[k]))
        &&& t.content == Value::Number(spec_number_ok(t.lexeme))
    })
    &&& (t.kind != TokenKind::Number ==> t.lexeme.len() == 1 && t.content == Value::Char(
        t.lexeme[0],
    ))
}

/// Every token the lexer yields has the shape above; in particular every
/// operator token carries its operator character as a one-character lexeme,
/// which the parser relies on.
pub proof fn lemma_spec_tokens_shape(s: Seq<char>, i: int)
    requires
        0 <= i <= s.len(),
    ensures
        forall|k: int|
            0 <= k < spec_tokens(s, i).len() ==> #[trigger] spec_token_shape(spec_tokens(s, i)[k]),
    decreases s.len() - i,
{
    lemma_next_token_bounds(s, i);
    lemma_skip_spaces_bounds(s, i);
    let (t, n) = spec_next_token(s, i);
    if t.kind != TokenKind::End {
        lemma_spec_tokens_shape(s, n);
        let j = spec_skip_spaces(s, i);
        if !(s[j] == '+' || s[j] == '-' || s[j] == '*' || s[j] == '/' || s[j] == '(' || s[j] == ')')
            && spec_is_number(s[j]) {
            lemma_run_end_bounds(s, j);
        }
        assert forall|k: int| 0 <= k < spec_tokens(s, i).len() implies #[trigger] spec_token_shape(
            spec_tokens(s, i)[k],
        ) by {
            if k > 0 {
                assert(spec_tokens(s, i)[k] == spec_tokens(s, n)[k - 1]);
            }
        }
    }
}

/// The views of a sequence of tokens.
pub open spec fn spec_views(ts: Seq<Token>) -> Seq<TokenView> {
    ts.map_values(|t: Token| t@)
}

/// The character under a scan position: the character there, or `'\0'` at
/// or past the end of the input.
pub open spec fn spec_char_at(s: Seq<char>, i: int) -> char {
    if i >= s.len() {
        '\0'
    } else {
        s[i]
    }
}

/// The lexer's working state: the input line as characters, the scan
/// cursor, and the error flag for the whole run.
pub struct Lexer {
    input: String,
    cursor: usize,
    had_error: bool,
}

impl Lexer {
    /// The input line as a character sequence.
    pub closed spec fn spec_input(&self) -> Seq<char> {
        self.input@
    }

    /// The scan cursor.
    pub closed spec fn spec_cursor(&self) -> int {
        self.cursor as int
    }

    /// The error flag for the run so far.
    pub closed spec fn spec_had_error(&self) -> bool {
        self.had_error
    }

    /// The cursor never passes the end of the input.
    pub closed spec fn wf(&self) -> bool {
        self.cursor <= self.input@.len()
    }

    /// Starts a scan of the given line: cursor at its start, no error yet.
    pub fn new(input: String) -> (l: Lexer)
        ensures
            l.wf(),
            l.spec_input() == input@,
            l.spec_cursor() == 0,
            !l.spec_had_error(),
    {
        Lexer { input: input, cursor: 0, had_error: false }
    }

    /// Moves the cursor one character ahead.
    pub fn advance(&mut self)
        requires
            old(self).spec_cursor() < old(self).spec_input().len(),
        ensures
            final(self).spec_input() == old(self).spec_input(),
            final(self).spec_cursor() == old(self).spec_cursor() + 1,
            final(self).spec_had_error() == old(self).spec_had_error(),
    {
        let n = self.input.as_str().unicode_len();
        proof {
            assert(self.cursor < n);
        }
        self.cursor = self.cursor + 1
    }

    /// True once the cursor has passed the last character.
    pub fn is_at_end(&self) -> (r: bool)
        ensures
            r == (self.spec_cursor() >= self.spec_input().len()),
    {
        self.cursor >= self.input.as_str().unicode_len()
    }

    /// True when the position before the cursor lies past the input.
    pub fn prev_is_at_end(&self) -> (r: bool)
        requires
            self.spec_cursor() >= 1,
        ensures
            r == (self.spec_cursor() - 1 >= self.spec_input().len()),
    {
        self.cursor - 1 >= self.input.as_str().unicode_len()
    }

    /// The character just before the cursor, or `'\0'` when that position
    /// lies past the input.
    pub fn prev(&self) -> (c: char)
        requires
            self.spec_cursor() >= 1,
        ensures
            c == spec_char_at(self.spec_input(), self.spec_cursor() - 1),
    {
        if self.prev_is_at_end() {
            return '\0';
        }
        self.input.as_str().get_char(self.cursor - 1)
    }

    /// The character under the cursor, or `'\0'` at the end of the input.
    pub fn char(&self) -> (c: char)
        ensures
            c == spec_char_at(self.spec_input(), self.spec_cursor()),
    {
        if self.is_at_end() {
            return '\0';
        }
        self.input.as_str().get_char(self.cursor)
    }

    /// Moves the cursor past every space under it.
    pub fn skip_whitespace(&mut self)
        requires
            old(self).wf(),
        ensures
            final(self).wf(),
            final(self).spec_input() == old(self).spec_input(),
            final(self).spec_had_error() == old(self).spec_had_error(),
            final(self).spec_cursor() == spec_skip_spaces(
                old(self).spec_input(),
                old(self).spec_cursor(),
            ),
    {
        let ghost s = self.spec_input();
        let ghost c0 = self.spec_cursor();
        while self.char() == ' '
            invariant
                self.wf(),
                self.spec_input() == s,
                self.spec_had_error() == old(self).spec_had_error(),
                c0 <= self.spec_cursor() <= s.len(),
                spec_skip_spaces(s, c0) == spec_skip_spaces(s, self.spec_cursor()),
            decreases s.len() - self.spec_cursor(),
        {
            self.advance();
        }
    }

    /// Produces the next token of the input and leaves the cursor just past
    /// it. At the end of the input the synthetic `End` token is produced and
    /// the cursor stays put. A malformed numeric run sets the error flag;
    /// nothing ever clears it.
    pub fn next_token(&mut self) -> (t: Token)
        requires
            old(self).wf(),
        ensures
            final(self).wf(),
            final(self).spec_input() == old(self).spec_input(),
            ({
                let (tv, n) = spec_next_token(old(self).spec_input(), old(self).spec_cursor());
                &&& t@ == tv
                &&& final(self).spec_cursor() == n
                &&& final(self).spec_had_error() == (old(self).spec_had_error() || tv.content
                    == Value::Number(false))
            }),
            old(self).spec_cursor() <= final(self).spec_cursor(),
            t@.kind != TokenKind::End ==> final(self).spec_cursor() > old(self).spec_cursor(),
    {
        proof {
            lemma_next_token_bounds(old(self).spec_input(), old(self).spec_cursor());
        }
        self.skip_whitespace();

        if self.is_at_end() {
            let t = Token {
                kind: TokenKind::End,
                lexeme: String::new(),
                content: Value::Nothing,
                pos: self.cursor,
            };
            proof {
                assert(t@.lexeme =~= Seq::<char>::empty());
            }
            return t;
        }

        let ghost s = self.spec_input();
        let c = self.char();
        let kind: TokenKind;
        if c == '+' {
            kind = TokenKind::Plus;
        } else if c == '-' {
            kind = TokenKind::Minus;
        } else if c == '*' {
            kind = TokenKind::Star;
        } else if c == '/' {
            kind = TokenKind::Slash;
        } else if c == '(' {
            kind = TokenKind::LParen;
        } else if c == ')' {
            kind = TokenKind::RParen;
        } else {
            if is_number(c) {
                return self.number_token();
            }
            kind = TokenKind::Never;
        }

        self.advance();
        let pc = self.prev();
        let lexeme = self.input.as_str().substring_char(self.cursor - 1, self.cursor).to_owned();
        let t = Token { kind: kind, lexeme: lexeme, content: Value::Char(pc), pos: self.cursor - 1 };
        proof {
            assert(t@.lexeme =~= seq![c]);
        }
        t
    }

    /// Scans the maximal run of digits and dots under the cursor into one
    /// `Number` token; a malformed run sets the error flag.
    fn number_token(&mut self) -> (t: Token)
        requires
            old(self).wf(),
            old(self).spec_cursor() < old(self).spec_input().len(),
            spec_is_number(old(self).spec_input()[old(self).spec_cursor()]),
        ensures
            final(self).wf(),
            final(self).spec_input() == old(self).spec_input(),
            ({
                let s = old(self).spec_input();
                let j = old(self).spec_cursor();
                let k = spec_run_end(s, j);
                &&& t@ == spec_number_token(s.subrange(j, k), j)
                &&& final(self).spec_cursor() == k
                &&& final(self).spec_had_error() == (old(self).spec_had_error() || !spec_number_ok(
                    s.subrange(j, k),
                ))
            }),
    {
        let ghost s = self.spec_input();
        let pos = self.cursor;
        proof {
            lemma_run_end_bounds(s, pos as int);
        }
        self.advance();
        while is_number(self.char())
            invariant
                self.wf(),
                self.spec_input() == s,
                self.spec_had_error() == old(self).spec_had_error(),
                pos < self.spec_cursor() <= s.len(),
                spec_run_end(s, pos as int) == spec_run_end(s, self.spec_cursor()),
            decreases s.len() - self.spec_cursor(),
        {
            self.advance();
        }
        let ghost k = spec_run_end(s, pos as int);
        proof {
            assert(k == self.spec_cursor());
        }

        let lexeme = self.input.as_str().substring_char(pos, self.cursor).to_owned();
        let mut dots: usize = 0;
        let mut digits: usize = 0;
        let mut i = pos;
        while i < self.cursor
            invariant
                self.wf(),
                self.spec_input() == s,
                pos <= i <= self.spec_cursor() <= s.len(),
                lexeme@ == s.subrange(pos as int, self.spec_cursor()),
                dots <= i - pos,
                digits <= i - pos,
                dots as int == spec_dots(s.subrange(pos as int, i as int)),
                digits as int == spec_digits(s.subrange(pos as int, i as int)),
            decreases self.spec_cursor() - i,
        {
            let ghost prefix = s.subrange(pos as int, i as int);
            let c = self.input.as_str().get_char(i);
            if c == '.' {
                dots = dots + 1;
            } else if c >= '0' && c <= '9' {
                digits = digits + 1;
            }
            i = i + 1;
            proof {
                assert(s.subrange(pos as int, i as int).drop_last() =~= prefix);
                assert(s.subrange(pos as int, i as int).last() == s[i - 1]);
            }
        }
        proof {
            assert(s.subrange(pos as int, self.spec_cursor()) =~= lexeme@);
        }
        let ok = dots <= 1 && digits >= 1;
        if !ok {
            self.had_error = true;
        }
        let t = Token {
            kind: TokenKind::Number,
            lexeme: lexeme,
            content: Value::Number(ok),
            pos: pos,
        };
        proof {
            assert(t@ == spec_number_token(s.subrange(pos as int, k), pos as int));
        }
        t
    }
}

proof fn lemma_has_bad_push(u: Seq<TokenView>, t: TokenView)
    ensures
        spec_has_bad_number(u.push(t)) == (spec_has_bad_number(u) || t.content == Value::Number(
            false,
        )),
{
    if spec_has_bad_number(u) {
        let i = choose|i: int| 0 <= i < u.len() && u[i].content == Value::Number(false);
        assert(u.push(t)[i].content == Value::Number(false));
    }
    if t.content == Value::Number(false) {
        assert(u.push(t)[u.len() as int].content == Value::Number(false));
    }
    if spec_has_bad_number(u.push(t)) && !spec_has_bad_number(u) && t.content != Value::Number(
        false,
    ) {
        let i = choose|i: int|
            0 <= i < u.push(t).len() && u.push(t)[i].content == Value::Number(false);
        if i < u.len() {
            assert(u[i].content == Value::Number(false));
        } else {
            assert(u.push(t)[i] == t);
        }
    }
}

/// Turns a line of source text into its token sequence, in input order,
/// together with the error flag of the run: true exactly when some numeric
/// run on the line was malformed.
pub fn lex(input: String) -> (r: (Vec<Token>, bool))
    ensures
        spec_views(r.0@) == spec_tokens(input@, 0),
        r.1 == spec_has_bad_number(spec_tokens(input@, 0)),
        forall|k: int|
            0 <= k < r.0@.len() ==> #[trigger] spec_token_shape(spec_views(r.0@)[k]),
        spec_ops_ok(spec_views(r.0@)),
{
    let mut l = Lexer::new(input);
    let ghost s = l.spec_input();
    let mut tokens: Vec<Token> = Vec::new();
    let mut tk = l.next_token();
    proof {
        lemma_next_token_bounds(s, 0);
        assert(spec_views(tokens@) =~= Seq::<TokenView>::empty());
        lemma_has_bad_push(spec_views(tokens@), tk@);
    }
    while tk.kind != TokenKind::End
        invariant
            l.wf(),
            l.spec_input() == s,
            spec_tokens(s, 0) == spec_views(tokens@) + (if tk@.kind == TokenKind::End {
                Seq::<TokenView>::empty()
            } else {
                seq![tk@] + spec_tokens(s, l.spec_cursor())
            }),
            l.spec_had_error() == spec_has_bad_number(spec_views(tokens@).push(tk@)),
            tk@.kind == TokenKind::End ==> tk@.content == Value::Nothing,
        decreases s.len() - l.spec_cursor() + (if tk@.kind == TokenKind::End {
            0int
        } else {
            1int
        }),
    {
        let ghost toks0 = spec_views(tokens@);
        let ghost tk0 = tk@;
        tokens.push(tk);
        proof {
            assert(spec_views(tokens@) =~= toks0.push(tk0));
        }
        tk = l.next_token();
        proof {
            lemma_has_bad_push(toks0, tk0);
            lemma_has_bad_push(toks0.push(tk0), tk@);
        }
    }
    proof {
        assert(spec_tokens(s, 0) =~= spec_views(tokens@));
        lemma_has_bad_push(spec_views(tokens@), tk@);
        lemma_spec_tokens_shape(s, 0);
        assert forall|k: int|
            0 <= k < spec_views(tokens@).len() && crate::token::spec_is_op_kind(
                #[trigger] spec_views(tokens@)[k].kind,
            ) implies spec_views(tokens@)[k].lexeme.len() >= 1 by {
            assert(spec_token_shape(spec_views(tokens@)[k]));
        }
    }
    (tokens, l.had_error)
}

/// A run made wholly of literal characters ends only at the end of the
/// input.
proof fn lemma_run_end_all(s: Seq<char>, i: int)
    requires
        0 <= i <= s.len(),
        forall|k: int| i <= k < s.len() ==> spec_is_number(s[k]),
    ensures
        spec_run_end(s, i) == s.len(),
    decreases s.len() - i,
{
    if i < s.len() {
        lemma_run_end_all(s, i + 1);
    }
}

/// Lexing a nonempty run of digits and dots on its own yields exactly one
/// `Number` token: the run is its lexeme, its content records whether the
/// run is well formed, its position is zero; the run fails exactly when the
/// lexeme is malformed.
pub proof fn lemma_lex_single_number(s: Seq<char>)
    requires
        s.len() > 0,
        forall|k: int| 0 <= k < s.len() ==> spec_is_number(s[k]),
    ensures
        spec_tokens(s, 0) == seq![spec_number_token(s, 0)],
        spec_has_bad_number(spec_tokens(s, 0)) == !spec_number_ok(s),
{
    assert(spec_is_number(s[0]));
    assert(spec_skip_spaces(s, 0) == 0);
    lemma_run_end_all(s, 0);
    assert(s.subrange(0, s.len() as int) =~= s);
    let (t, n) = spec_next_token(s, 0);
    assert(t == spec_number_token(s, 0));
    assert(n == s.len());
    assert(spec_skip_spaces(s, s.len() as int) == s.len() as int);
    assert(spec_tokens(s, n) =~= Seq::<TokenView>::empty());
    assert(spec_tokens(s, 0) =~= seq![t]);
    if !spec_number_ok(s) {
        assert(spec_tokens(s, 0)[0].content == Value::Number(false));
    } else if spec_has_bad_number(spec_tokens(s, 0)) {
        let i = choose|i: int|
            0 <= i < spec_tokens(s, 0).len() && spec_tokens(s, 0)[i].content == Value::Number(
                false,
            );
        assert(i == 0);
        assert(false);
    }
}

/// Law: lexing a well-formed numeric literal on its own yields exactly one
/// `Number` token — the literal itself is the lexeme, the content marks it
/// well formed — and no error.
pub proof fn lemma_lex_valid_literal(s: Seq<char>)
    requires
        s.len() > 0,
        forall|k: int| 0 <= k < s.len() ==> spec_is_number(s[k]),
        spec_number_ok(s),
    ensures
        spec_tokens(s, 0) == seq![
            TokenView {
                kind: TokenKind::Number,
                lexeme: s,
                content: Value::Number(true),
                pos: 0,
            },
        ],
        !spec_has_bad_number(spec_tokens(s, 0)),
{
    lemma_lex_single_number(s);
}

/// Law: lexing the lexeme of any `Number` token in isolation reproduces an
/// identical token — same kind, same lexeme, same content — at position
/// zero.
pub proof fn lemma_relex_number_token(s: Seq<char>, k: int)
    requires
        0 <= k < spec_tokens(s, 0).len(),
        spec_tokens(s, 0)[k].kind == TokenKind::Number,
    ensures
        ({
            let t = spec_tokens(s, 0)[k];
            spec_tokens(t.lexeme, 0) == seq![
                TokenView { kind: t.kind, lexeme: t.lexeme, content: t.content, pos: 0 },
            ]
        }),
{
    lemma_spec_tokens_shape(s, 0);
    let t = spec_tokens(s, 0)[k];
    assert(spec_token_shape(t));
    lemma_lex_single_number(t.lexeme);
}

} // verus!
