//! Tokens: classified, contiguous spans of the source text.

use vstd::prelude::*;
use crate::text::copy_chars;

verus! {

/// The kinds of token that the lexer tells apart.
#[derive(PartialEq, Eq, Clone, Copy, Debug, Structural)]
pub enum TokenType {
    Text,
    EndOfFile,
    EndOfLine,
    StartOfFile,
    DollarSign,
    Whitespace,
    Tab,
    Asterisk,
    Underscore,
    Hash,
    BracketLeft,
    BracketRight,
    ParenthesisLeft,
    ParenthesisRight,
    Exclamation,
    GreaterThan,
    Dash,
    ListNumber,
    Backtick,
    CurlybraceLeft,
    CurlybraceRight,
    Percent,
    FrontmatterStart,
    FrontmatterInside,
    FrontmatterEnd,
}

/// A token as a mathematical value.
pub struct Tok {
    pub kind: TokenType,
    pub text: Seq<char>,
    pub start: int,
    pub end: int,
}

/// A token: its kind, its characters, and the inclusive bounds of the span of
/// the buffer that it covers.
#[derive(Debug, PartialEq)]
pub struct Token {
    pub start: usize,
    pub end: usize,
    pub kind: TokenType,
    pub text: Vec<char>,
}

impl View for Token {
    type V = Tok;

    open spec fn view(&self) -> Tok {
        Tok { kind: self.kind, text: self.text@, start: self.start as int, end: self.end as int }
    }
}

/// The tokens of a list as mathematical values.
pub open spec fn toks(tokens: Seq<Token>) -> Seq<Tok> {
    Seq::new(tokens.len(), |i: int| tokens[i]@)
}

/// Pushing a token onto a list pushes its value.
pub proof fn lemma_toks_push(tokens: Seq<Token>, t: Token)
    ensures
        toks(tokens.push(t)) == toks(tokens).push(t@),
{
    assert(toks(tokens.push(t)) =~= toks(tokens).push(t@));
}

/// The characters covered by the span `start..=end`: the length of a token.
pub open spec fn span_len(t: Tok) -> int {
    (t.end - t.start) + 1
}

impl Token {
    /// A token over the span `start..=end`.
    pub fn new(kind: TokenType, text: Vec<char>, start: usize, end: usize) -> (t: Self)
        ensures
            t@ == (Tok { kind, text: text@, start: start as int, end: end as int }),
    {
        Token { start, end, kind, text }
    }

    /// Extends the token by the characters `c`, which follow it in the buffer.
    pub fn append(&mut self, c: Vec<char>)
        requires
            old(self).end + c.len() <= usize::MAX,
        ensures
            final(self)@ == (Tok {
                text: old(self)@.text + c@,
                end: old(self)@.end + c.len(),
                ..old(self)@
            }),
    {
        let n: usize = c.len();
        let mut c = c;
        self.text.append(&mut c);
        self.end = self.end + n;
    }

    /// The number of characters between the bounds, both included.
    pub fn len(&self) -> (n: usize)
        requires
            self.start <= self.end,
            self.end - self.start < usize::MAX,
        ensures
            n == span_len(self@),
    {
        (self.end - self.start) + 1
    }
}

impl Clone for Token {
    fn clone(&self) -> (t: Self)
        ensures
            t@ == self@,
    {
        Token { start: self.start, end: self.end, kind: self.kind, text: copy_chars(&self.text) }
    }
}

/// A copy of a list of tokens.
pub fn copy_tokens(tokens: &Vec<Token>, from: usize, to: usize) -> (v: Vec<Token>)
    requires
        from <= to <= tokens.len(),
    ensures
        toks(v@) == toks(tokens@).subrange(from as int, to as int),
{
    let mut v: Vec<Token> = Vec::new();
    let mut i: usize = from;
    while i < to
        invariant
            from <= i <= to <= tokens.len(),
            toks(v@) == toks(tokens@).subrange(from as int, i as int),
        decreases to - i,
    {
        let t = tokens[i].clone();
        proof {
            lemma_toks_push(v@, t);
            assert(toks(tokens@).subrange(from as int, i + 1) =~= toks(tokens@).subrange(
                from as int,
                i as int,
            ).push(t@));
        }
        v.push(t);
        i += 1;
    }
    v
}

} // verus!
