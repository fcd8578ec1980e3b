//! The lexer.
//!
//! A character buffer with a cursor and one character of lookahead.
//! Whitespace and both comment forms are skipped; one character of
//! lookahead resolves `==`, `!=` and the comment openers; string literals
//! take the text between their quotes verbatim; numeric literals are
//! converted to IEEE-754 doubles, with `+0.0` for malformed text;
//! identifiers are ASCII-letter words, reclassified to keywords from the
//! reserved set.
//!
//! The lexer's whole behaviour is a function of the input text:
//! [`spec_token_at`] pins the kind, the literal and the cursor motion of
//! every token that [`Lexer::next_token`] returns, and [`spec_tokenizes`]
//! the whole token stream.  Every token but the closing `EOF` advances the
//! cursor, so tokenising always terminates.

use vstd::prelude::*;
use crate::num::{POS_ZERO_BITS, num_parse, parsed_bits};
use crate::token::{Token, TokenType};
use crate::value::{chars_eq, clone_chars};

verus! {

/// ASCII whitespace.
pub open spec fn spec_is_ws(c: char) -> bool {
    c == ' ' || c == '\t' || c == '\n' || c == '\r' || c == '\u{b}' || c == '\u{c}'
}

/// An ASCII letter or underscore: what may start an identifier.
pub open spec fn spec_is_letter(c: char) -> bool {
    ('a' <= c && c <= 'z') || ('A' <= c && c <= 'Z') || c == '_'
}

/// An ASCII digit.
pub open spec fn spec_is_digit(c: char) -> bool {
    '0' <= c && c <= '9'
}

fn is_ws(c: char) -> (r: bool)
    ensures
        r == spec_is_ws(c),
{
    c == ' ' || c == '\t' || c == '\n' || c == '\r' || c == '\u{b}' || c == '\u{c}'
}

fn is_letter(c: char) -> (r: bool)
    ensures
        r == spec_is_letter(c),
{
    ('a' <= c && c <= 'z') || ('A' <= c && c <= 'Z') || c == '_'
}

fn is_digit(c: char) -> (r: bool)
    ensures
        r == spec_is_digit(c),
{
    '0' <= c && c <= '9'
}

/// The encoded double a numeric literal denotes: malformed text falls back
/// to `+0.0`.
pub open spec fn literal_bits(text: Seq<char>) -> u64 {
    match parsed_bits(text) {
        Some(b) => b,
        None => POS_ZERO_BITS,
    }
}


/// The character at a position, with the NUL sentinel past the end.
pub open spec fn char_at(inp: Seq<char>, p: int) -> char {
    if 0 <= p < inp.len() {
        inp[p]
    } else {
        '\u{0}'
    }
}

/// The position after a run of whitespace.
pub open spec fn skip_ws_end(inp: Seq<char>, p: int) -> int
    decreases inp.len() - p
        when 0 <= p <= inp.len()
{
    if p < inp.len() && spec_is_ws(inp[p]) {
        skip_ws_end(inp, p + 1)
    } else {
        p
    }
}

/// The position of the newline (or NUL, or end) closing a line comment.
pub open spec fn line_comment_end(inp: Seq<char>, p: int) -> int
    decreases inp.len() - p
        when 0 <= p <= inp.len()
{
    if p < inp.len() && inp[p] != '\n' && inp[p] != '\u{0}' {
        line_comment_end(inp, p + 1)
    } else {
        p
    }
}

/// The position just past the `*/` closing a block comment whose body
/// starts at `p`; an unterminated comment runs to the end (or to a NUL).
pub open spec fn block_comment_end(inp: Seq<char>, p: int) -> int
    decreases inp.len() - p
        when 0 <= p <= inp.len()
{
    if p >= inp.len() || inp[p] == '\u{0}' {
        p
    } else if inp[p] == '*' && p + 1 < inp.len() && inp[p + 1] == '/' {
        p + 2
    } else {
        block_comment_end(inp, p + 1)
    }
}

proof fn lemma_skip_ws_end_bounds(inp: Seq<char>, p: int)
    requires
        0 <= p <= inp.len(),
    ensures
        p <= skip_ws_end(inp, p) <= inp.len(),
        !(skip_ws_end(inp, p) < inp.len() && spec_is_ws(inp[skip_ws_end(inp, p)])),
    decreases inp.len() - p,
{
    if p < inp.len() && spec_is_ws(inp[p]) {
        lemma_skip_ws_end_bounds(inp, p + 1);
    }
}

proof fn lemma_line_comment_end_bounds(inp: Seq<char>, p: int)
    requires
        0 <= p <= inp.len(),
    ensures
        p <= line_comment_end(inp, p) <= inp.len(),
    decreases inp.len() - p,
{
    if p < inp.len() && inp[p] != '\n' && inp[p] != '\u{0}' {
        lemma_line_comment_end_bounds(inp, p + 1);
    }
}

proof fn lemma_block_comment_end_bounds(inp: Seq<char>, p: int)
    requires
        0 <= p <= inp.len(),
    ensures
        p <= block_comment_end(inp, p) <= inp.len(),
    decreases inp.len() - p,
{
    if p >= inp.len() || inp[p] == '\u{0}' {
    } else if inp[p] == '*' && p + 1 < inp.len() && inp[p + 1] == '/' {
    } else {
        lemma_block_comment_end_bounds(inp, p + 1);
    }
}

/// The first position of the next token: whitespace and both comment
/// forms are transparent.
pub open spec fn token_start(inp: Seq<char>, p: int) -> int
    decreases inp.len() - p
        when 0 <= p <= inp.len()
        via token_start_decreases
{
    let q = skip_ws_end(inp, p);
    if q < inp.len() && inp[q] == '/' && q + 1 < inp.len() && inp[q + 1] == '/' {
        token_start(inp, line_comment_end(inp, q))
    } else if q < inp.len() && inp[q] == '/' && q + 1 < inp.len() && inp[q + 1] == '*' {
        token_start(inp, block_comment_end(inp, q + 2))
    } else {
        q
    }
}

#[via_fn]
proof fn token_start_decreases(inp: Seq<char>, p: int) {
    lemma_skip_ws_end_bounds(inp, p);
    let q = skip_ws_end(inp, p);
    if q < inp.len() && inp[q] == '/' && q + 1 < inp.len() && inp[q + 1] == '/' {
        lemma_line_comment_end_bounds(inp, q + 1);
        assert(line_comment_end(inp, q) == line_comment_end(inp, q + 1));
    } else if q < inp.len() && inp[q] == '/' && q + 1 < inp.len() && inp[q + 1] == '*' {
        lemma_block_comment_end_bounds(inp, q + 2);
    }
}

/// Skipping whitespace twice is skipping it once.
proof fn lemma_skip_ws_end_fix(inp: Seq<char>, p: int)
    requires
        0 <= p <= inp.len(),
    ensures
        skip_ws_end(inp, skip_ws_end(inp, p)) == skip_ws_end(inp, p),
{
    lemma_skip_ws_end_bounds(inp, p);
}

/// The end of an identifier word starting at `p`.
pub open spec fn ident_end(inp: Seq<char>, p: int) -> int
    decreases inp.len() - p
        when 0 <= p <= inp.len()
{
    if p < inp.len() && (spec_is_letter(inp[p]) || spec_is_digit(inp[p])) {
        ident_end(inp, p + 1)
    } else {
        p
    }
}

/// The end of a numeric literal starting at `p`: digits and dots.
pub open spec fn number_end(inp: Seq<char>, p: int) -> int
    decreases inp.len() - p
        when 0 <= p <= inp.len()
{
    if p < inp.len() && (spec_is_digit(inp[p]) || inp[p] == '.') {
        number_end(inp, p + 1)
    } else {
        p
    }
}

/// The position of the quote (or NUL, or end) closing a string literal
/// whose content starts at `p`.
pub open spec fn string_end(inp: Seq<char>, p: int, quote: char) -> int
    decreases inp.len() - p
        when 0 <= p <= inp.len()
{
    if p < inp.len() && inp[p] != quote && inp[p] != '\u{0}' {
        string_end(inp, p + 1, quote)
    } else {
        p
    }
}

/// The cursor position after the token starting at `q`.
pub open spec fn token_end(inp: Seq<char>, q: int) -> int {
    let c = char_at(inp, q);
    if c == '\u{0}' {
        if 0 <= q < inp.len() {
            q + 1
        } else {
            q
        }
    } else if c == '=' || c == '!' {
        if char_at(inp, q + 1) == '=' {
            q + 2
        } else {
            q + 1
        }
    } else if c == '"' || c == '\'' {
        let e = string_end(inp, q + 1, c);
        if e < inp.len() {
            e + 1
        } else {
            e
        }
    } else if spec_is_letter(c) {
        ident_end(inp, q)
    } else if spec_is_digit(c) {
        number_end(inp, q)
    } else {
        q + 1
    }
}

/// The keyword reclassification of an identifier word: the reserved words
/// become keyword tokens, everything else an `Identifier` carrying the
/// word.
pub open spec fn word_token(w: Seq<char>, t: Token) -> bool {
    if w == seq!['l', 'e', 't'] {
        t.token_type is Let
    } else if w == seq!['c', 'o', 'n', 's', 't'] {
        t.token_type is Const
    } else if w == seq!['f', 'u', 'n', 'c', 't', 'i', 'o', 'n'] {
        t.token_type is Function
    } else if w == seq!['r', 'e', 't', 'u', 'r', 'n'] {
        t.token_type is Return
    } else if w == seq!['i', 'f'] {
        t.token_type is If
    } else if w == seq!['e', 'l', 's', 'e'] {
        t.token_type is Else
    } else if w == seq!['w', 'h', 'i', 'l', 'e'] {
        t.token_type is While
    } else if w == seq!['f', 'o', 'r'] {
        t.token_type is For
    } else {
        t.token_type matches TokenType::Identifier(n) && n@ == w
    }
}

/// The token standing at position `q` (a token start: whitespace and
/// comments already skipped): its kind, its literal text, and the cursor
/// position `end` after it.  One-character lookahead resolves `==` and
/// `!=`; `/` at a token start is division (comment openers were skipped);
/// identifier words are reclassified to keywords; a numeric literal is a
/// maximal run of digits and dots carrying the double its text denotes;
/// a string literal takes the text between its quotes verbatim.
pub open spec fn spec_token_at(inp: Seq<char>, q: int, t: Token, end: int) -> bool {
    let c = char_at(inp, q);
    end == token_end(inp, q) && if c == '\u{0}' {
        t.token_type is EOF && t.literal@ == Seq::<char>::empty()
    } else if c == '=' {
        if char_at(inp, q + 1) == '=' {
            t.token_type is Equal && t.literal@ == seq!['=']
        } else {
            t.token_type is Assign && t.literal@ == seq!['=']
        }
    } else if c == '!' {
        if char_at(inp, q + 1) == '=' {
            t.token_type is NotEqual && t.literal@ == seq!['=']
        } else {
            t.token_type is Illegal && t.literal@ == seq!['!']
        }
    } else if c == '+' {
        t.token_type is Plus && t.literal@ == seq![c]
    } else if c == '-' {
        t.token_type is Minus && t.literal@ == seq![c]
    } else if c == '*' {
        t.token_type is Star && t.literal@ == seq![c]
    } else if c == '/' {
        t.token_type is Slash && t.literal@ == seq![c]
    } else if c == '<' {
        t.token_type is LessThan && t.literal@ == seq![c]
    } else if c == '>' {
        t.token_type is GreaterThan && t.literal@ == seq![c]
    } else if c == ';' {
        t.token_type is SemiColon && t.literal@ == seq![c]
    } else if c == '(' {
        t.token_type is LParen && t.literal@ == seq![c]
    } else if c == ')' {
        t.token_type is RParen && t.literal@ == seq![c]
    } else if c == '{' {
        t.token_type is LBrace && t.literal@ == seq![c]
    } else if c == '}' {
        t.token_type is RBrace && t.literal@ == seq![c]
    } else if c == '[' {
        t.token_type is LBracket && t.literal@ == seq![c]
    } else if c == ']' {
        t.token_type is RBracket && t.literal@ == seq![c]
    } else if c == ':' {
        t.token_type is Colon && t.literal@ == seq![c]
    } else if c == ',' {
        t.token_type is Comma && t.literal@ == seq![c]
    } else if c == '.' {
        t.token_type is Dot && t.literal@ == seq![c]
    } else if c == '"' || c == '\'' {
        let e = string_end(inp, q + 1, c);
        &&& t.token_type matches TokenType::Str(sv) && sv@ == inp.subrange(q + 1, e)
        &&& t.literal@ == inp.subrange(q + 1, e)
    } else if spec_is_letter(c) {
        let e = ident_end(inp, q);
        word_token(inp.subrange(q, e), t) && t.literal@ == inp.subrange(q, e)
    } else if spec_is_digit(c) {
        let e = number_end(inp, q);
        &&& t.token_type matches TokenType::Number(bits) && bits == literal_bits(
            inp.subrange(q, e),
        )
        &&& t.literal@ == inp.subrange(q, e)
    } else {
        t.token_type is Illegal && t.literal@ == seq![c]
    }
}


/// `toks` is exactly the token stream of `inp` from position `p`: each
/// token as [`spec_token_at`] places it, through the first `EOF`.
pub open spec fn spec_tokenizes(inp: Seq<char>, p: int, toks: Seq<Token>) -> bool
    decreases toks.len(),
{
    toks.len() > 0 && {
        let q = token_start(inp, p);
        &&& spec_token_at(inp, q, toks[0], token_end(inp, q))
        &&& if char_at(inp, q) == '\u{0}' {
            toks.len() == 1
        } else {
            spec_tokenizes(inp, token_end(inp, q), toks.drop_first())
        }
    }
}


/// Two token types carry the same observable content: the same variant,
/// with payload views equal.  (Tokens carry vectors, so two runs of the
/// lexer agree up to this, not up to allocation identity.)
pub open spec fn token_type_obs_eq(a: TokenType, b: TokenType) -> bool {
    match (a, b) {
        (TokenType::Let, TokenType::Let) => true,
        (TokenType::Const, TokenType::Const) => true,
        (TokenType::Function, TokenType::Function) => true,
        (TokenType::Return, TokenType::Return) => true,
        (TokenType::If, TokenType::If) => true,
        (TokenType::Else, TokenType::Else) => true,
        (TokenType::While, TokenType::While) => true,
        (TokenType::For, TokenType::For) => true,
        (TokenType::Identifier(x), TokenType::Identifier(y)) => x@ == y@,
        (TokenType::Number(x), TokenType::Number(y)) => x == y,
        (TokenType::Str(x), TokenType::Str(y)) => x@ == y@,
        (TokenType::Plus, TokenType::Plus) => true,
        (TokenType::Minus, TokenType::Minus) => true,
        (TokenType::Star, TokenType::Star) => true,
        (TokenType::Slash, TokenType::Slash) => true,
        (TokenType::Assign, TokenType::Assign) => true,
        (TokenType::Equal, TokenType::Equal) => true,
        (TokenType::NotEqual, TokenType::NotEqual) => true,
        (TokenType::LessThan, TokenType::LessThan) => true,
        (TokenType::GreaterThan, TokenType::GreaterThan) => true,
        (TokenType::LParen, TokenType::LParen) => true,
        (TokenType::RParen, TokenType::RParen) => true,
        (TokenType::LBrace, TokenType::LBrace) => true,
        (TokenType::RBrace, TokenType::RBrace) => true,
        (TokenType::LBracket, TokenType::LBracket) => true,
        (TokenType::RBracket, TokenType::RBracket) => true,
        (TokenType::Colon, TokenType::Colon) => true,
        (TokenType::SemiColon, TokenType::SemiColon) => true,
        (TokenType::Comma, TokenType::Comma) => true,
        (TokenType::Dot, TokenType::Dot) => true,
        (TokenType::EOF, TokenType::EOF) => true,
        (TokenType::Illegal, TokenType::Illegal) => true,
        _ => false,
    }
}

/// The token at one position is determined: two tokens standing at the
/// same start agree in kind, payload and literal.
proof fn lemma_token_at_deterministic(inp: Seq<char>, q: int, a: Token, b: Token)
    requires
        spec_token_at(inp, q, a, token_end(inp, q)),
        spec_token_at(inp, q, b, token_end(inp, q)),
    ensures
        token_type_obs_eq(a.token_type, b.token_type),
        a.literal@ == b.literal@,
{
}

/// Tokenising is deterministic: two token streams of the same input from
/// the same position agree in length and, token by token, in kind,
/// payload and literal text.  (Line and column are untracked metadata.)
pub proof fn lemma_tokenize_deterministic(inp: Seq<char>, p: int, t1: Seq<Token>, t2: Seq<Token>)
    requires
        spec_tokenizes(inp, p, t1),
        spec_tokenizes(inp, p, t2),
    ensures
        t1.len() == t2.len(),
        forall|i: int|
            0 <= i < t1.len() ==> token_type_obs_eq(
                (#[trigger] t1[i]).token_type,
                (#[trigger] t2[i]).token_type,
            ) && t1[i].literal@ == t2[i].literal@,
    decreases t1.len(),
{
    let q = token_start(inp, p);
    lemma_token_at_deterministic(inp, q, t1[0], t2[0]);
    if char_at(inp, q) == '\u{0}' {
    } else {
        lemma_tokenize_deterministic(inp, token_end(inp, q), t1.drop_first(), t2.drop_first());
        assert forall|i: int|
            0 <= i < t1.len() implies token_type_obs_eq(
            (#[trigger] t1[i]).token_type,
            (#[trigger] t2[i]).token_type,
        ) && t1[i].literal@ == t2[i].literal@ by {
            if i > 0 {
                assert(t1.drop_first()[i - 1] == t1[i]);
                assert(t2.drop_first()[i - 1] == t2[i]);
            }
        }
    }
}

pub struct Lexer {
    pub input: Vec<char>,
    pub position: usize,
    pub read_position: usize,
    pub ch: char,
    pub line: usize,
    pub column: usize,
}

impl Lexer {
    /// The cursor invariant: `position` points at `ch` (or at the end, with
    /// `ch` the NUL sentinel), and `read_position` is just past it.
    pub open spec fn wf(&self) -> bool {
        &&& self.position <= self.input@.len()
        &&& self.read_position <= self.input@.len()
        &&& (self.position < self.input@.len() ==> self.read_position == self.position + 1
            && self.ch == self.input@[self.position as int])
        &&& (self.position == self.input@.len() ==> self.ch == '\u{0}' && self.read_position
            == self.position)
    }

    pub fn new(input: Vec<char>) -> (l: Lexer)
        ensures
            l.wf(),
            l.input@ == input@,
            l.position == 0,
    {
        let ch = if input.len() > 0 {
            input[0]
        } else {
            '\u{0}'
        };
        let read_position: usize = if input.len() > 0 {
            1
        } else {
            0
        };
        Self { input, position: 0, read_position, ch, line: 1, column: 1 }
    }

    /// Advance the cursor one character; at the end of input it parks on
    /// the NUL sentinel.
    pub fn read_char(&mut self)
        requires
            old(self).wf(),
        ensures
            final(self).wf(),
            final(self).input == old(self).input,
            old(self).position < old(self).input@.len() ==> final(self).position == old(
                self,
            ).position + 1,
            old(self).position == old(self).input@.len() ==> final(self).position == old(
                self,
            ).position && final(self).ch == '\u{0}',
    {
        if self.column < usize::MAX {
            self.column = self.column + 1;
        }
        if self.read_position >= self.input.len() {
            self.ch = '\u{0}';
            self.position = self.read_position;
            return ;
        }
        self.ch = self.input[self.read_position];
        self.position = self.read_position;
        self.read_position = self.read_position + 1;
    }

    /// The character after the cursor, or the NUL sentinel at the end.
    pub fn peek_char(&self) -> (c: char)
        requires
            self.wf(),
        ensures
            c == (if self.read_position < self.input@.len() {
                self.input@[self.read_position as int]
            } else {
                '\u{0}'
            }),
    {
        if self.read_position >= self.input.len() {
            '\u{0}'
        } else {
            self.input[self.read_position]
        }
    }

    /// Skip whitespace, counting lines.
    pub fn skip_whitespace(&mut self)
        requires
            old(self).wf(),
        ensures
            final(self).wf(),
            final(self).input == old(self).input,
            final(self).position >= old(self).position,
            !spec_is_ws(final(self).ch),
            final(self).position == skip_ws_end(old(self).input@, old(self).position as int),
    {
        while is_ws(self.ch)
            invariant
                self.wf(),
                self.input == old(self).input,
                self.position >= old(self).position,
                skip_ws_end(self.input@, old(self).position as int) == skip_ws_end(
                    self.input@,
                    self.position as int,
                ),
            decreases self.input@.len() - self.position,
        {
            proof {
                assert(self.position < self.input@.len());
            }
            if self.ch == '\n' {
                self.line = if self.line < usize::MAX {
                    self.line + 1
                } else {
                    self.line
                };
                self.column = 0;
            }
            self.read_char();
        }
    }

    /// Skip a line comment: everything to the end of the line.
    pub fn skip_comment(&mut self)
        requires
            old(self).wf(),
        ensures
            final(self).wf(),
            final(self).input == old(self).input,
            final(self).position >= old(self).position,
            old(self).ch != '\n' && old(self).ch != '\u{0}' ==> final(self).position > old(
                self,
            ).position,
            final(self).position == skip_ws_end(
                old(self).input@,
                line_comment_end(old(self).input@, old(self).position as int),
            ),
    {
        while self.ch != '\n' && self.ch != '\u{0}'
            invariant
                self.wf(),
                self.input == old(self).input,
                self.position >= old(self).position,
                (self.position > old(self).position || self.ch == old(self).ch),
                line_comment_end(self.input@, old(self).position as int) == line_comment_end(
                    self.input@,
                    self.position as int,
                ),
            decreases self.input@.len() - self.position,
        {
            proof {
                assert(self.position < self.input@.len());
            }
            self.read_char();
        }
        self.skip_whitespace();
    }

    /// Skip a block comment, up to and over its closing delimiter.
    pub fn skip_multiline_comment(&mut self)
        requires
            old(self).wf(),
            old(self).ch != '\u{0}',
            old(self).position + 1 < old(self).input@.len(),
        ensures
            final(self).wf(),
            final(self).input == old(self).input,
            final(self).position > old(self).position,
            final(self).position == skip_ws_end(
                old(self).input@,
                block_comment_end(old(self).input@, old(self).position + 2),
            ),
    {
        proof {
            assert(self.position < self.input@.len());
        }
        self.read_char();
        self.read_char();
        proof {
            assert(self.position == old(self).position + 2);
        }
        let ghost body = old(self).position + 2;
        while self.ch != '\u{0}'
            invariant_except_break
                self.wf(),
                self.input == old(self).input,
                self.position > old(self).position,
                body == old(self).position + 2,
                block_comment_end(self.input@, body) == block_comment_end(
                    self.input@,
                    self.position as int,
                ),
            ensures
                self.wf(),
                self.input == old(self).input,
                self.position > old(self).position,
                self.position == block_comment_end(self.input@, body),
            decreases self.input@.len() - self.position,
        {
            if self.ch == '*' && self.peek_char() == '/' {
                proof {
                    assert(self.position + 1 < self.input@.len());
                    assert(block_comment_end(self.input@, self.position as int)
                        == self.position + 2);
                }
                self.read_char();
                self.read_char();
                break ;
            }
            proof {
                assert(self.position < self.input@.len());
            }
            self.read_char();
        }
        self.skip_whitespace();
    }

    /// Produce the next token: exactly the token [`spec_token_at`] places
    /// at [`token_start`] of the cursor, with the cursor moved past it.
    /// Every token but the final `EOF` advances the cursor, so lexing runs
    /// out of input and stops.
    pub fn next_token(&mut self) -> (t: Token)
        requires
            old(self).wf(),
        ensures
            final(self).wf(),
            final(self).input == old(self).input,
            final(self).position >= old(self).position,
            !(t.token_type is EOF) ==> final(self).position > old(self).position,
            t.token_type matches TokenType::Number(bits) ==> bits == literal_bits(t.literal@),
            t.token_type matches TokenType::Identifier(name) ==> name@ == t.literal@,
            t.token_type matches TokenType::Str(sv) ==> sv@ == t.literal@,
            ({
                let inp = old(self).input@;
                let q = token_start(inp, old(self).position as int);
                spec_token_at(inp, q, t, final(self).position as int)
            }),
        decreases old(self).input@.len() - old(self).position,
    {
        self.skip_whitespace();
        let ghost inp = old(self).input@;
        let ghost q0 = self.position as int;
        proof {
            lemma_skip_ws_end_bounds(inp, old(self).position as int);
        }
        let c = self.ch;
        let token_type: TokenType = if c == '=' {
            if self.peek_char() == '=' {
                self.read_char();
                TokenType::Equal
            } else {
                TokenType::Assign
            }
        } else if c == '+' {
            TokenType::Plus
        } else if c == '-' {
            TokenType::Minus
        } else if c == '*' {
            TokenType::Star
        } else if c == '/' {
            if self.peek_char() == '/' {
                self.skip_comment();
                proof {
                    lemma_line_comment_end_bounds(inp, q0);
                    lemma_skip_ws_end_fix(inp, line_comment_end(inp, q0));
                    assert(token_start(inp, old(self).position as int) == token_start(
                        inp,
                        line_comment_end(inp, q0),
                    ));
                    assert(token_start(inp, line_comment_end(inp, q0)) == token_start(
                        inp,
                        self.position as int,
                    ));
                }
                return self.next_token();
            } else if self.peek_char() == '*' {
                self.skip_multiline_comment();
                proof {
                    lemma_block_comment_end_bounds(inp, q0 + 2);
                    lemma_skip_ws_end_fix(inp, block_comment_end(inp, q0 + 2));
                    assert(token_start(inp, old(self).position as int) == token_start(
                        inp,
                        block_comment_end(inp, q0 + 2),
                    ));
                    assert(token_start(inp, block_comment_end(inp, q0 + 2)) == token_start(
                        inp,
                        self.position as int,
                    ));
                }
                return self.next_token();
            } else {
                TokenType::Slash
            }
        } else if c == '!' {
            if self.peek_char() == '=' {
                self.read_char();
                TokenType::NotEqual
            } else {
                TokenType::Illegal
            }
        } else if c == '<' {
            TokenType::LessThan
        } else if c == '>' {
            TokenType::GreaterThan
        } else if c == ';' {
            TokenType::SemiColon
        } else if c == '(' {
            TokenType::LParen
        } else if c == ')' {
            TokenType::RParen
        } else if c == '{' {
            TokenType::LBrace
        } else if c == '}' {
            TokenType::RBrace
        } else if c == '[' {
            TokenType::LBracket
        } else if c == ']' {
            TokenType::RBracket
        } else if c == ':' {
            TokenType::Colon
        } else if c == ',' {
            TokenType::Comma
        } else if c == '.' {
            TokenType::Dot
        } else if c == '\u{0}' {
            TokenType::EOF
        } else if c == '"' {
            proof {
                assert(token_start(inp, old(self).position as int) == q0);
            }
            return self.read_string('"');
        } else if c == '\'' {
            proof {
                assert(token_start(inp, old(self).position as int) == q0);
            }
            return self.read_string('\'');
        } else if is_letter(c) {
            proof {
                assert(token_start(inp, old(self).position as int) == q0);
            }
            return self.read_identifier();
        } else if is_digit(c) {
            proof {
                assert(token_start(inp, old(self).position as int) == q0);
            }
            return self.read_number();
        } else {
            TokenType::Illegal
        };
        let is_eof = c == '\u{0}';
        let literal: Vec<char> = if is_eof {
            Vec::new()
        } else {
            let mut l: Vec<char> = Vec::new();
            l.push(self.ch);
            l
        };
        proof {
            assert(token_start(inp, old(self).position as int) == q0);
            if is_eof {
                assert(literal@ =~= Seq::<char>::empty());
            } else {
                assert(literal@ =~= seq![self.ch]);
            }
        }
        let token = Token::new(token_type, literal, self.line, self.column);
        proof {
            if !is_eof {
                assert(self.position < self.input@.len());
            }
        }
        self.read_char();
        token
    }

    /// Read an identifier word and reclassify it to a keyword where it
    /// matches the reserved set.
    fn read_identifier(&mut self) -> (t: Token)
        requires
            old(self).wf(),
            spec_is_letter(old(self).ch),
        ensures
            final(self).wf(),
            final(self).input == old(self).input,
            final(self).position > old(self).position,
            final(self).position == ident_end(old(self).input@, old(self).position as int),
            !(t.token_type is EOF),
            t.token_type matches TokenType::Identifier(name) ==> name@ == t.literal@,
            !(t.token_type is Number),
            !(t.token_type is Str),
            t.literal@ == old(self).input@.subrange(
                old(self).position as int,
                final(self).position as int,
            ),
            word_token(t.literal@, t),
    {
        let position = self.position;
        let col = self.column;
        proof {
            assert(self.position < self.input@.len());
        }
        while is_letter(self.ch) || is_digit(self.ch)
            invariant
                self.wf(),
                self.input == old(self).input,
                position <= self.position,
                (self.position > position || spec_is_letter(self.ch)),
                ident_end(self.input@, position as int) == ident_end(
                    self.input@,
                    self.position as int,
                ),
            decreases self.input@.len() - self.position,
        {
            proof {
                assert(self.position < self.input@.len());
            }
            self.read_char();
        }
        let literal = clone_chars_inner(&self.input, position, self.position);
        let kw_let: Vec<char> = vec!['l', 'e', 't'];
        let kw_const: Vec<char> = vec!['c', 'o', 'n', 's', 't'];
        let kw_function: Vec<char> = vec!['f', 'u', 'n', 'c', 't', 'i', 'o', 'n'];
        let kw_return: Vec<char> = vec!['r', 'e', 't', 'u', 'r', 'n'];
        let kw_if: Vec<char> = vec!['i', 'f'];
        let kw_else: Vec<char> = vec!['e', 'l', 's', 'e'];
        let kw_while: Vec<char> = vec!['w', 'h', 'i', 'l', 'e'];
        let kw_for: Vec<char> = vec!['f', 'o', 'r'];
        proof {
            assert(kw_let@ =~= seq!['l', 'e', 't']);
            assert(kw_const@ =~= seq!['c', 'o', 'n', 's', 't']);
            assert(kw_function@ =~= seq!['f', 'u', 'n', 'c', 't', 'i', 'o', 'n']);
            assert(kw_return@ =~= seq!['r', 'e', 't', 'u', 'r', 'n']);
            assert(kw_if@ =~= seq!['i', 'f']);
            assert(kw_else@ =~= seq!['e', 'l', 's', 'e']);
            assert(kw_while@ =~= seq!['w', 'h', 'i', 'l', 'e']);
            assert(kw_for@ =~= seq!['f', 'o', 'r']);
        }
        let token_type: TokenType = if chars_eq(&literal, &kw_let) {
            TokenType::Let
        } else if chars_eq(&literal, &kw_const) {
            TokenType::Const
        } else if chars_eq(&literal, &kw_function) {
            TokenType::Function
        } else if chars_eq(&literal, &kw_return) {
            TokenType::Return
        } else if chars_eq(&literal, &kw_if) {
            TokenType::If
        } else if chars_eq(&literal, &kw_else) {
            TokenType::Else
        } else if chars_eq(&literal, &kw_while) {
            TokenType::While
        } else if chars_eq(&literal, &kw_for) {
            TokenType::For
        } else {
            TokenType::Identifier(clone_chars(&literal))
        };
        Token::new(token_type, literal, self.line, col)
    }

    /// Read a numeric literal: digits and dots; the token carries the
    /// encoded double the text denotes, `+0.0` where it is malformed.
    fn read_number(&mut self) -> (t: Token)
        requires
            old(self).wf(),
            spec_is_digit(old(self).ch),
        ensures
            final(self).wf(),
            final(self).input == old(self).input,
            final(self).position > old(self).position,
            final(self).position == number_end(old(self).input@, old(self).position as int),
            !(t.token_type is EOF),
            t.token_type matches TokenType::Number(bits) && bits == literal_bits(t.literal@),
            t.literal@ == old(self).input@.subrange(
                old(self).position as int,
                final(self).position as int,
            ),
    {
        let position = self.position;
        let col = self.column;
        proof {
            assert(self.position < self.input@.len());
        }
        while is_digit(self.ch) || self.ch == '.'
            invariant
                self.wf(),
                self.input == old(self).input,
                position <= self.position,
                (self.position > position || spec_is_digit(self.ch)),
                number_end(self.input@, position as int) == number_end(
                    self.input@,
                    self.position as int,
                ),
            decreases self.input@.len() - self.position,
        {
            proof {
                assert(self.position < self.input@.len());
            }
            self.read_char();
        }
        let literal = clone_chars_inner(&self.input, position, self.position);
        let bits = match num_parse(&literal) {
            Some(b) => b,
            None => POS_ZERO_BITS,
        };
        Token::new(TokenType::Number(bits), literal, self.line, col)
    }

    /// Read a string literal: the text between the quotes, verbatim, with
    /// no escape processing.
    fn read_string(&mut self, quote: char) -> (t: Token)
        requires
            old(self).wf(),
            old(self).ch == quote,
            quote != '\u{0}',
        ensures
            final(self).wf(),
            final(self).input == old(self).input,
            final(self).position > old(self).position,
            t.token_type is Str,
            t.token_type matches TokenType::Str(sv) ==> sv@ == t.literal@,
            ({
                let inp = old(self).input@;
                let e = string_end(inp, old(self).position + 1, quote);
                &&& t.literal@ == inp.subrange(old(self).position + 1, e)
                &&& final(self).position == (if e < inp.len() {
                    e + 1
                } else {
                    e
                })
            }),
    {
        let col = self.column;
        proof {
            assert(self.position < self.input@.len());
        }
        self.read_char();
        let position = self.position;
        proof {
            assert(position == old(self).position + 1);
        }
        while self.ch != quote && self.ch != '\u{0}'
            invariant
                self.wf(),
                self.input == old(self).input,
                position <= self.position,
                self.position > old(self).position,
                position == old(self).position + 1,
                string_end(self.input@, position as int, quote) == string_end(
                    self.input@,
                    self.position as int,
                    quote,
                ),
            decreases self.input@.len() - self.position,
        {
            proof {
                assert(self.position < self.input@.len());
            }
            self.read_char();
        }
        proof {
            assert(self.position == string_end(self.input@, position as int, quote));
        }
        let literal = clone_chars_inner(&self.input, position, self.position);
        let payload = clone_chars(&literal);
        self.read_char();
        Token::new(TokenType::Str(payload), literal, self.line, col)
    }
}

/// Copy `input[from..to]`.
fn clone_chars_inner(input: &Vec<char>, from: usize, to: usize) -> (r: Vec<char>)
    requires
        from <= to <= input@.len(),
    ensures
        r@ == input@.subrange(from as int, to as int),
{
    let mut r: Vec<char> = Vec::new();
    let mut i: usize = from;
    while i < to
        invariant
            from <= i <= to <= input@.len(),
            r@ == input@.subrange(from as int, i as int),
        decreases to - i,
    {
        r.push(input[i]);
        proof {
            assert(input@.subrange(from as int, i as int).push(input@[i as int])
                =~= input@.subrange(from as int, i + 1));
        }
        i += 1;
    }
    r
}

} // verus!
