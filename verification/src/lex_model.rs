//! What the lexer computes, as a function on the text, and what holds of it.

use vstd::prelude::*;
use crate::token::{Tok, TokenType};

verus! {

/// The ways in which lexing can fail.
#[derive(Debug, PartialEq, Eq, Clone, Copy, Structural)]
pub enum LexerError {
    GetCharError,
    MoveError(usize),
    PeekError(usize),
    FrontmatterError,
    MathError,
}

/// The lexer between two characters: the index of the character that was read
/// last, the token that is being built, and the tokens that are complete.
pub struct LexState {
    pub pos: int,
    pub cur: Tok,
    pub done: Seq<Tok>,
}

/// A decimal digit.
pub open spec fn is_digit(c: char) -> bool {
    '0' <= c && c <= '9'
}

/// The token of kind `kind` over the one character at `pos`.
pub open spec fn single(s: Seq<char>, pos: int, kind: TokenType) -> Tok {
    Tok { kind, text: seq![s[pos]], start: pos, end: pos }
}

/// The token of kind `kind` over the characters `from..=to`.
pub open spec fn span(s: Seq<char>, from: int, to: int, kind: TokenType) -> Tok {
    Tok { kind, text: s.subrange(from, to + 1), start: from, end: to }
}

/// The sentinel that opens every token stream.
pub open spec fn start_of_file() -> Tok {
    Tok { kind: TokenType::StartOfFile, text: Seq::empty(), start: 0, end: 0 }
}

/// The sentinel that closes the token stream of a text of `len` characters.
pub open spec fn end_of_file(len: int) -> Tok {
    Tok { kind: TokenType::EndOfFile, text: Seq::empty(), start: len, end: len }
}

/// The state in which lexing begins.
pub open spec fn initial_state() -> LexState {
    LexState { pos: 0, cur: start_of_file(), done: Seq::empty() }
}

/// The first index after `pos` at which the character differs from the one at
/// `pos`, or the length of the text.
pub open spec fn run_end(s: Seq<char>, pos: int) -> int
    decreases s.len() - pos,
{
    if 0 <= pos && pos + 1 < s.len() && s[pos + 1] == s[pos] {
        run_end(s, pos + 1)
    } else {
        pos + 1
    }
}

/// The first index from `pos` on that holds `c`, or the length of the text.
pub open spec fn index_of(s: Seq<char>, pos: int, c: char) -> int
    decreases s.len() - pos,
{
    if 0 <= pos < s.len() && s[pos] != c {
        index_of(s, pos + 1, c)
    } else if pos < s.len() {
        pos
    } else {
        s.len() as int
    }
}

/// The first index from `pos` on that holds no digit, or the length of the text.
pub open spec fn digits_end(s: Seq<char>, pos: int) -> int
    decreases s.len() - pos,
{
    if 0 <= pos < s.len() && is_digit(s[pos]) {
        digits_end(s, pos + 1)
    } else {
        pos
    }
}

/// The character that follows the run of equal characters at `pos`; the
/// letter `a` stands for the end of the text.
pub open spec fn after_run(s: Seq<char>, pos: int) -> char {
    if run_end(s, pos) < s.len() {
        s[run_end(s, pos)]
    } else {
        'a'
    }
}

/// `pos` is the first character of a line.
pub open spec fn at_line_start(s: Seq<char>, pos: int) -> bool {
    pos == 0 || s[pos - 1] == '\n'
}

/// A run of `#` is a header marker only where a space follows it.
pub open spec fn hash_kind(s: Seq<char>, pos: int) -> TokenType {
    if after_run(s, pos) == ' ' {
        TokenType::Hash
    } else {
        TokenType::Text
    }
}

/// A run of `!` is text where a space follows it.
pub open spec fn exclamation_kind(s: Seq<char>, pos: int) -> TokenType {
    if after_run(s, pos) == ' ' {
        TokenType::Text
    } else {
        TokenType::Exclamation
    }
}

/// `>` opens a quotation only as the first character of a line, before a space.
pub open spec fn greater_kind(s: Seq<char>, pos: int, cur: TokenType) -> TokenType {
    if cur == TokenType::EndOfLine && pos + 1 < s.len() && s[pos + 1] == ' ' {
        TokenType::GreaterThan
    } else {
        TokenType::Text
    }
}

/// A space is indentation after a line break or after indentation.
pub open spec fn space_kind(cur: TokenType) -> TokenType {
    if cur == TokenType::Whitespace || cur == TokenType::EndOfLine {
        TokenType::Whitespace
    } else {
        TokenType::Text
    }
}

/// The token at a digit: at the start of a line a run of digits before a dot
/// is a list number; any other digit is text.
pub open spec fn number_token(s: Seq<char>, pos: int) -> Tok {
    let e = digits_end(s, pos);
    if at_line_start(s, pos) && e < s.len() && s[e] == '.' {
        span(s, pos, e, TokenType::ListNumber)
    } else {
        single(s, pos, TokenType::Text)
    }
}

/// The token at a `-` inside the document: three of them alone on their line
/// are a rule, one before a space is a list marker, any other is text.
pub open spec fn dash_token(s: Seq<char>, pos: int) -> Tok {
    if 1 <= pos && pos + 1 < s.len() {
        if s[pos - 1] == '\n' && s[pos + 1] == '-' {
            if run_end(s, pos) == pos + 3 && pos + 3 < s.len() && s[pos + 3] == '\n' {
                span(s, pos, pos + 2, TokenType::Dash)
            } else {
                single(s, pos, TokenType::Text)
            }
        } else if s[pos + 1] == ' ' {
            single(s, pos, TokenType::Dash)
        } else {
            single(s, pos, TokenType::Text)
        }
    } else {
        single(s, pos, TokenType::Text)
    }
}

/// The kind of a character that means the same wherever it stands.
pub open spec fn plain_kind(c: char) -> TokenType {
    if c == '\n' {
        TokenType::EndOfLine
    } else if c == '$' {
        TokenType::DollarSign
    } else if c == '\t' {
        TokenType::Tab
    } else if c == '*' {
        TokenType::Asterisk
    } else if c == '_' {
        TokenType::Underscore
    } else if c == '[' {
        TokenType::BracketLeft
    } else if c == ']' {
        TokenType::BracketRight
    } else if c == '(' {
        TokenType::ParenthesisLeft
    } else if c == ')' {
        TokenType::ParenthesisRight
    } else if c == '`' {
        TokenType::Backtick
    } else if c == '{' {
        TokenType::CurlybraceLeft
    } else if c == '}' {
        TokenType::CurlybraceRight
    } else if c == '%' {
        TokenType::Percent
    } else {
        TokenType::Text
    }
}

/// The token that begins at `pos`, where the token before it has kind `cur`
/// and `pos` does not open the front matter.
pub open spec fn token_at(s: Seq<char>, pos: int, cur: TokenType) -> Tok {
    let c = s[pos];
    if is_digit(c) {
        number_token(s, pos)
    } else if c == ' ' {
        single(s, pos, space_kind(cur))
    } else if c == '#' {
        single(s, pos, hash_kind(s, pos))
    } else if c == '!' {
        single(s, pos, exclamation_kind(s, pos))
    } else if c == '>' {
        single(s, pos, greater_kind(s, pos, cur))
    } else if c == '-' {
        dash_token(s, pos)
    } else {
        single(s, pos, plain_kind(c))
    }
}

/// The closing line of the front matter begins at `i`.
pub open spec fn closes_at(s: Seq<char>, i: int) -> bool {
    0 <= i && i + 4 <= s.len() && s[i] == '-' && s[i + 1] == '-' && s[i + 2] == '-' && s[i + 3]
        == '\n'
}

/// The first index from `from` on at which the front matter closes, or -1.
pub open spec fn find_close(s: Seq<char>, from: int) -> int
    decreases s.len() - from,
{
    if from < 0 || from + 4 > s.len() {
        -1
    } else if closes_at(s, from) {
        from
    } else {
        find_close(s, from + 1)
    }
}

/// The first index in `pos..end` that holds a line break, or `end`.
pub open spec fn line_end(s: Seq<char>, pos: int, end: int) -> int
    decreases end - pos,
{
    if 0 <= pos < end && pos < s.len() && s[pos] != '\n' {
        line_end(s, pos + 1, end)
    } else {
        pos
    }
}

/// Completes the current token and begins `t`.
pub open spec fn push_token(st: LexState, t: Tok) -> LexState {
    LexState { pos: st.pos, cur: t, done: st.done.push(st.cur) }
}

/// Takes in the token `t`: it extends the current token where both have the
/// same kind, but a line break always stands alone.
pub open spec fn absorb(st: LexState, t: Tok) -> LexState {
    if t.kind != TokenType::EndOfLine && t.kind == st.cur.kind {
        LexState {
            pos: st.pos,
            cur: Tok { text: st.cur.text + t.text, end: st.cur.end + t.text.len(), ..st.cur },
            done: st.done,
        }
    } else {
        push_token(st, t)
    }
}

/// The tokens of the front matter's lines `pos..end`: one per line break and
/// one per non-empty line.
pub open spec fn front_matter_lines(s: Seq<char>, pos: int, end: int, st: LexState) -> LexState
    decreases end - pos,
{
    if pos < 0 || pos >= end || end > s.len() {
        st
    } else if s[pos] == '\n' {
        front_matter_lines(s, pos + 1, end, push_token(st, single(s, pos, TokenType::EndOfLine)))
    } else {
        let e = line_end(s, pos, end);
        if pos < e <= end {
            front_matter_lines(
                s,
                e,
                end,
                push_token(st, span(s, pos, e - 1, TokenType::FrontmatterInside)),
            )
        } else {
            st
        }
    }
}

/// A text opens with front matter where it begins with exactly three `-`.
pub open spec fn opens_front_matter(s: Seq<char>) -> bool {
    s.len() >= 3 && s[0] == '-' && run_end(s, 0) == 3
}

/// Reads the front matter at the start of the text: the opening line, the
/// lines up to the closing line, and the closing line as the token that is
/// handed back. Fails where the front matter is never closed.
pub open spec fn front_matter_at(s: Seq<char>, st: LexState) -> Result<(Tok, LexState), LexerError> {
    let k = find_close(s, 3);
    if k < 0 {
        Err(LexerError::FrontmatterError)
    } else {
        let opened = push_token(st, span(s, 0, 2, TokenType::FrontmatterStart));
        let inside = front_matter_lines(s, 3, k, opened);
        Ok(
            (
                span(s, k, k + 2, TokenType::FrontmatterEnd),
                LexState { pos: k + 2, cur: inside.cur, done: inside.done },
            ),
        )
    }
}

/// The token at the position of `st`, and the state once it is found: the
/// position is then the last character of that token.
pub open spec fn match_at(s: Seq<char>, st: LexState) -> Result<(Tok, LexState), LexerError> {
    if !(0 <= st.pos < s.len()) {
        Err(LexerError::GetCharError)
    } else if st.cur.kind == TokenType::StartOfFile && st.pos == 0 && s[0] == '-' {
        if opens_front_matter(s) {
            front_matter_at(s, st)
        } else {
            Ok((single(s, 0, TokenType::Text), st))
        }
    } else {
        let t = token_at(s, st.pos, st.cur.kind);
        Ok((t, LexState { pos: t.end, cur: st.cur, done: st.done }))
    }
}

/// Reads one token at the position of `st` and takes it in.
pub open spec fn read_at(s: Seq<char>, st: LexState) -> Result<LexState, LexerError> {
    match match_at(s, st) {
        Err(e) => Err(e),
        Ok((t, found)) => Ok(absorb(found, t)),
    }
}

/// The token stream from the state `st` on: the tokens that are complete,
/// those that the characters from the cursor on make, and the closing
/// sentinel.
pub open spec fn lex_from(s: Seq<char>, st: LexState) -> Result<Seq<Tok>, LexerError>
    decreases s.len() - st.pos,
{
    if st.pos < 0 || st.pos >= s.len() {
        Ok(st.done.push(st.cur).push(end_of_file(s.len() as int)))
    } else {
        match read_at(s, st) {
            Err(e) => Err(e),
            Ok(next) => if st.pos <= next.pos < s.len() {
                lex_from(s, LexState { pos: next.pos + 1, cur: next.cur, done: next.done })
            } else {
                Ok(next.done.push(next.cur).push(end_of_file(s.len() as int)))
            },
        }
    }
}

/// The token stream of the text `s`.
pub open spec fn lex(s: Seq<char>) -> Result<Seq<Tok>, LexerError> {
    lex_from(s, initial_state())
}

/// The text without its carriage returns.
pub open spec fn without_cr(s: Seq<char>) -> Seq<char>
    decreases s.len(),
{
    if s.len() == 0 {
        Seq::empty()
    } else if s.last() == '\r' {
        without_cr(s.drop_last())
    } else {
        without_cr(s.drop_last()).push(s.last())
    }
}

/// The characters of all tokens, one token after the other.
pub open spec fn texts(tokens: Seq<Tok>) -> Seq<char>
    decreases tokens.len(),
{
    if tokens.len() == 0 {
        Seq::empty()
    } else {
        texts(tokens.drop_last()) + tokens.last().text
    }
}

} // verus!

verus! {

/// The current token ends before the cursor, or nothing has been read yet.
pub open spec fn behind(st: LexState) -> bool {
    0 <= st.cur.end <= st.pos && (st.cur.end < st.pos || st.cur.kind == TokenType::StartOfFile)
}

/// A run ends after its first character and inside the text.
pub proof fn lemma_run_end(s: Seq<char>, pos: int)
    requires
        0 <= pos < s.len(),
    ensures
        pos < run_end(s, pos) <= s.len(),
        forall|i: int| pos <= i < run_end(s, pos) ==> s[i] == s[pos],
        run_end(s, pos) < s.len() ==> s[run_end(s, pos)] != s[pos],
    decreases s.len() - pos,
{
    if pos + 1 < s.len() && s[pos + 1] == s[pos] {
        lemma_run_end(s, pos + 1);
    }
}

/// The digits at `pos` end at or after `pos` and inside the text.
pub proof fn lemma_digits_end(s: Seq<char>, pos: int)
    requires
        0 <= pos <= s.len(),
    ensures
        pos <= digits_end(s, pos) <= s.len(),
        forall|i: int| pos <= i < digits_end(s, pos) ==> is_digit(s[i]),
        digits_end(s, pos) < s.len() ==> !is_digit(s[digits_end(s, pos)]),
    decreases s.len() - pos,
{
    if pos < s.len() && is_digit(s[pos]) {
        lemma_digits_end(s, pos + 1);
    }
}

/// Where the front matter closes at all from `from` on, it closes first at
/// what `find_close` gives.
pub proof fn lemma_find_close(s: Seq<char>, from: int)
    requires
        0 <= from,
    ensures
        find_close(s, from) == -1 || (from <= find_close(s, from) && closes_at(
            s,
            find_close(s, from),
        )),
        forall|i: int|
            from <= i && (find_close(s, from) == -1 || i < find_close(s, from)) ==> !closes_at(
                s,
                i,
            ),
    decreases s.len() - from,
{
    if from + 4 <= s.len() && !closes_at(s, from) {
        lemma_find_close(s, from + 1);
    }
}

/// A line ends at or after its first character and before `end`.
pub proof fn lemma_line_end(s: Seq<char>, pos: int, end: int)
    requires
        0 <= pos <= end <= s.len(),
    ensures
        pos <= line_end(s, pos, end) <= end,
        forall|i: int| pos <= i < line_end(s, pos, end) ==> s[i] != '\n',
        line_end(s, pos, end) < end ==> s[line_end(s, pos, end)] == '\n',
    decreases end - pos,
{
    if pos < end && s[pos] != '\n' {
        lemma_line_end(s, pos + 1, end);
    }
}

/// The kinds of the tokens inside the front matter.
pub open spec fn front_matter_kind(k: TokenType) -> bool {
    k == TokenType::FrontmatterStart || k == TokenType::FrontmatterInside || k
        == TokenType::EndOfLine
}

/// The lines of the front matter leave the cursor alone, and the token they
/// end with lies before `end`.
pub proof fn lemma_front_matter_lines(s: Seq<char>, pos: int, end: int, st: LexState)
    requires
        0 <= pos <= end <= s.len(),
        0 <= st.cur.end < pos,
        front_matter_kind(st.cur.kind),
    ensures
        front_matter_lines(s, pos, end, st).pos == st.pos,
        0 <= front_matter_lines(s, pos, end, st).cur.end < end || pos == end,
        0 <= front_matter_lines(s, pos, end, st).cur.end,
        pos == end ==> front_matter_lines(s, pos, end, st) == st,
        front_matter_kind(front_matter_lines(s, pos, end, st).cur.kind),
    decreases end - pos,
{
    if pos < end {
        if s[pos] == '\n' {
            lemma_front_matter_lines(
                s,
                pos + 1,
                end,
                push_token(st, single(s, pos, TokenType::EndOfLine)),
            );
        } else {
            lemma_line_end(s, pos, end);
            let e = line_end(s, pos, end);
            assert(e > pos);
            lemma_front_matter_lines(
                s,
                e,
                end,
                push_token(st, span(s, pos, e - 1, TokenType::FrontmatterInside)),
            );
        }
    }
}

/// The token that begins at `pos` covers `pos` and what follows it, inside
/// the text, and is no sentinel.
pub proof fn lemma_token_at(s: Seq<char>, pos: int, cur: TokenType)
    requires
        0 <= pos < s.len(),
    ensures
        token_at(s, pos, cur).start == pos,
        pos <= token_at(s, pos, cur).end < s.len(),
        token_at(s, pos, cur).text == s.subrange(pos, token_at(s, pos, cur).end + 1),
        token_at(s, pos, cur).kind != TokenType::StartOfFile,
        token_at(s, pos, cur).kind != TokenType::EndOfFile,
{
    lemma_digits_end(s, pos);
    lemma_run_end(s, pos);
    assert(seq![s[pos]] =~= s.subrange(pos, pos + 1));
}

/// The token found at a cursor lies inside the text and after the current
/// token, and the cursor does not move back.
pub proof fn lemma_read_at(s: Seq<char>, st: LexState)
    requires
        behind(st),
    ensures
        match read_at(s, st) {
            Ok(next) => 0 <= st.pos <= next.pos < s.len() && 0 <= next.cur.end <= next.pos
                && next.cur.kind != TokenType::StartOfFile && next.cur.kind
                != TokenType::EndOfFile,
            Err(_) => true,
        },
        match match_at(s, st) {
            Ok((t, found)) => 0 <= found.cur.end && found.cur.end + t.text.len() <= s.len()
                && found.pos == t.end && (t.kind == found.cur.kind ==> found.cur.end < t.start)
                && t.text == s.subrange(t.start, t.end + 1) && t.start <= t.end,
            Err(_) => true,
        },
{
    if 0 <= st.pos < s.len() {
        if st.cur.kind == TokenType::StartOfFile && st.pos == 0 && s[0] == '-' {
            if opens_front_matter(s) {
                lemma_find_close(s, 3);
                let k = find_close(s, 3);
                if k >= 0 {
                    let opened = push_token(st, span(s, 0, 2, TokenType::FrontmatterStart));
                    lemma_front_matter_lines(s, 3, k, opened);
                }
            } else {
                assert(seq![s[0]] =~= s.subrange(0, 1));
            }
        } else {
            lemma_token_at(s, st.pos, st.cur.kind);
        }
    }
}

} // verus!
