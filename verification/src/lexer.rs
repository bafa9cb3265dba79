//! The lexer: a cursor over the characters of a document that builds the
//! token stream described in [`crate::lex_model`].

use vstd::prelude::*;
use crate::lex_model::{
    after_run, dash_token, digits_end, exclamation_kind, find_close, front_matter_at,
    front_matter_lines, greater_kind, hash_kind, index_of, initial_state, lex_from, line_end,
    match_at, number_token, opens_front_matter, plain_kind, push_token, read_at, run_end, single,
    space_kind, span, without_cr, LexState, LexerError,
};
use crate::lex_model::{behind, lemma_find_close, lemma_read_at, lemma_run_end};
use crate::text::{chars_of, push_range};
use crate::token::{lemma_toks_push, toks, Tok, Token, TokenType};

verus! {

/// A markdown document as it was read: its text and the path it came from.
#[derive(Debug)]
pub struct MarkdownFile {
    pub content: String,
    pub path: String,
}

/// The lines of `s` that end before `i` are in `acc`; the line in progress
/// began at `start`. The result adds every line that a line break ends: its
/// first index and its characters, the line break included.
pub open spec fn lines_from(
    s: Seq<char>,
    start: int,
    i: int,
    acc: Seq<(int, Seq<char>)>,
) -> Seq<(int, Seq<char>)>
    decreases s.len() - i,
{
    if !(0 <= start <= i < s.len()) {
        acc
    } else if s[i] == '\n' {
        lines_from(s, i + 1, i + 1, acc.push((start, s.subrange(start, i + 1))))
    } else {
        lines_from(s, start, i + 1, acc)
    }
}

/// The lines of `s` that a line break ends, each with its first index.
pub open spec fn lines_of(s: Seq<char>) -> Seq<(int, Seq<char>)> {
    lines_from(s, 0, 0, Seq::empty())
}

/// A list of lines as plain values.
pub open spec fn line_values(lines: Seq<(usize, String)>) -> Seq<(int, Seq<char>)> {
    Seq::new(lines.len(), |k: int| (lines[k].0 as int, lines[k].1@))
}

fn strip_cr(content: &str) -> (v: Vec<char>)
    ensures
        v@ == without_cr(content@),
{
    let all = chars_of(content);
    let mut v: Vec<char> = Vec::new();
    let mut i: usize = 0;
    while i < all.len()
        invariant
            i <= all.len(),
            v@ == without_cr(all@.take(i as int)),
        decreases all.len() - i,
    {
        proof {
            assert(all@.take(i + 1).drop_last() =~= all@.take(i as int));
        }
        if all[i] != '\r' {
            v.push(all[i]);
        }
        i += 1;
    }
    proof {
        assert(all@.take(all.len() as int) =~= all@);
    }
    v
}

/// The bounds, both included, of a match counted from the cursor `pos`.
pub open spec fn match_bounds(pos: int, found: Option<(usize, usize)>) -> (usize, usize) {
    match found {
        Some((start, end)) => if end >= 1 && start + pos <= usize::MAX && end - 1 + pos
            <= usize::MAX {
            ((start + pos) as usize, (end - 1 + pos) as usize)
        } else {
            (pos as usize, pos as usize)
        },
        None => (pos as usize, pos as usize),
    }
}

/// The lexer of one document.
#[derive(Debug)]
pub struct Lexer {
    pub path: String,
    pub chars: Vec<char>,
    pub position: usize,
    pub current_token: Token,
    pub tokens: Vec<Token>,
}

impl Lexer {
    /// The characters that are lexed.
    pub open spec fn buffer(&self) -> Seq<char> {
        self.chars@
    }

    /// The index of the character at the cursor.
    pub open spec fn pos(&self) -> int {
        self.position as int
    }

    /// The token that is being built.
    pub open spec fn current_tok(&self) -> Tok {
        self.current_token@
    }

    /// The lexer as a state of the model.
    pub open spec fn state(&self) -> LexState {
        LexState { pos: self.pos(), cur: self.current_tok(), done: toks(self.tokens@) }
    }

    /// The two lexers read the same document.
    pub open spec fn same_document(&self, other: &Lexer) -> bool {
        self.buffer() == other.buffer() && self.path == other.path
    }

    /// A lexer over the text of `file`, without its carriage returns.
    pub fn new(file: MarkdownFile) -> (l: Self)
        ensures
            l.buffer() == without_cr(file.content@),
            l.state() == initial_state(),
            l.path == file.path,
    {
        let chars = strip_cr(file.content.as_str());
        let l = Lexer {
            path: file.path,
            chars,
            position: 0,
            current_token: Token::new(TokenType::StartOfFile, Vec::new(), 0, 0),
            tokens: Vec::new(),
        };
        proof {
            assert(toks(l.tokens@) =~= Seq::empty());
        }
        l
    }

    /// A lexer over `content`, without its carriage returns, closed by a line
    /// break like the last line of a text file.
    pub fn new_test(path: &str, content: &str) -> (l: Self)
        ensures
            l.buffer() == without_cr(content@).push('\n'),
            l.state() == initial_state(),
            l.path@ == path@,
    {
        let mut chars = strip_cr(content);
        chars.push('\n');
        let l = Lexer {
            path: crate::text::string_of(path),
            chars,
            position: 0,
            current_token: Token::new(TokenType::StartOfFile, Vec::new(), 0, 0),
            tokens: Vec::new(),
        };
        proof {
            assert(toks(l.tokens@) =~= Seq::empty());
        }
        l
    }

    /// The number of characters in the buffer.
    pub fn len(&self) -> (n: usize)
        ensures
            n == self.buffer().len(),
    {
        self.chars.len()
    }

    /// The index of the character at the cursor.
    pub fn position(&self) -> (p: usize)
        ensures
            p == self.pos(),
    {
        self.position
    }

    /// The lines that a line break ends, each with the index of its first
    /// character.
    pub fn get_lines(&self) -> (lines: Vec<(usize, String)>)
        ensures
            line_values(lines@) == lines_of(self.buffer()),
    {
        let mut curr_line = String::new();
        let mut lines: Vec<(usize, String)> = Vec::new();
        let mut line_index: usize = 0;
        let mut i: usize = 0;
        proof {
            assert(line_values(lines@) =~= Seq::empty());
            assert(self.chars@.subrange(0, 0) =~= Seq::empty());
        }
        while i < self.chars.len()
            invariant
                line_index <= i <= self.chars.len(),
                curr_line@ == self.chars@.subrange(line_index as int, i as int),
                lines_from(self.chars@, line_index as int, i as int, line_values(lines@))
                    == lines_of(self.chars@),
            decreases self.chars.len() - i,
        {
            let c = self.chars[i];
            crate::text::push_char(&mut curr_line, c);
            proof {
                assert(self.chars@.subrange(line_index as int, i + 1) =~= self.chars@.subrange(
                    line_index as int,
                    i as int,
                ).push(c));
            }
            if c == '\n' {
                proof {
                    assert(line_values(lines@.push((line_index, curr_line))) =~= line_values(
                        lines@,
                    ).push((line_index as int, curr_line@)));
                }
                lines.push((line_index, curr_line));
                curr_line = String::new();
                line_index = i + 1;
                proof {
                    assert(self.chars@.subrange(i + 1, i + 1) =~= Seq::empty());
                }
            }
            i += 1;
        }
        lines
    }

    /// The character at the cursor.
    pub fn current(&self) -> (r: Result<&char, LexerError>)
        ensures
            match r {
                Ok(c) => self.pos() < self.buffer().len() && *c == self.buffer()[self.pos()],
                Err(e) => self.pos() >= self.buffer().len() && e == LexerError::GetCharError,
            },
    {
        if self.position < self.chars.len() {
            Ok(&self.chars[self.position])
        } else {
            Err(LexerError::GetCharError)
        }
    }

    /// Completes the current token and begins `t`.
    pub fn new_token(&mut self, t: Token)
        ensures
            final(self).state() == push_token(old(self).state(), t@),
            final(self).same_document(old(self)),
    {
        proof {
            lemma_toks_push(self.tokens@, self.current_token);
        }
        let done = self.current_token.clone();
        proof {
            lemma_toks_push(self.tokens@, done);
        }
        self.tokens.push(done);
        self.current_token = t;
    }

    /// Moves the cursor to `pos` and hands back the character there. Fails,
    /// and moves nothing, where `pos` is outside the buffer.
    pub fn move_to(&mut self, pos: usize) -> (r: Result<char, LexerError>)
        ensures
            final(self).same_document(old(self)),
            final(self).current_tok() == old(self).current_tok(),
            final(self).tokens == old(self).tokens,
            match r {
                Ok(c) => pos < old(self).buffer().len() && c == old(self).buffer()[pos as int] && final(self).pos() == pos,
                Err(e) => pos >= old(self).buffer().len() && e == LexerError::MoveError(pos) && final(self).pos() == old(self).pos(),
            },
    {
        if pos >= self.chars.len() {
            return Err(LexerError::MoveError(pos));
        }
        self.position = pos;
        Ok(self.chars[pos])
    }

    /// Moves the cursor one character on and hands back the character there.
    /// Fails where the cursor leaves the buffer.
    pub fn next(&mut self) -> (r: Result<char, LexerError>)
        ensures
            final(self).same_document(old(self)),
            final(self).current_tok() == old(self).current_tok(),
            final(self).tokens == old(self).tokens,
            match r {
                Ok(c) => old(self).pos() + 1 < old(self).buffer().len() && final(self).pos() == old(self).pos() + 1 && c == old(self).buffer()[old(self).pos() + 1],
                Err(e) => if old(self).pos() >= old(self).buffer().len() {
                    final(self).pos() == old(self).pos() && (old(self).pos() < usize::MAX ==> e
                        == LexerError::MoveError((old(self).pos() + 1) as usize))
                } else {
                    old(self).pos() + 1 == old(self).buffer().len() && final(self).pos() == old(self).pos() + 1 && e == LexerError::GetCharError
                },
            },
    {
        if self.position >= self.chars.len() {
            let at: usize = if self.position < usize::MAX {
                self.position + 1
            } else {
                usize::MAX
            };
            return Err(LexerError::MoveError(at));
        }
        self.position += 1;
        if self.position < self.chars.len() {
            Ok(self.chars[self.position])
        } else {
            Err(LexerError::GetCharError)
        }
    }

    /// The index of the next line break from the cursor on, or the length of
    /// the buffer.
    pub fn next_line(&self) -> (r: usize)
        requires
            self.pos() <= self.buffer().len(),
        ensures
            r == index_of(self.buffer(), self.pos(), '\n'),
    {
        self.find_from(self.position, '\n')
    }

    fn find_from(&self, from: usize, c: char) -> (r: usize)
        requires
            from <= self.buffer().len(),
        ensures
            r == index_of(self.buffer(), from as int, c),
            from <= r <= self.buffer().len(),
    {
        let mut i: usize = from;
        while i < self.chars.len() && self.chars[i] != c
            invariant
                from <= i <= self.chars.len(),
                index_of(self.chars@, i as int, c) == index_of(self.chars@, from as int, c),
            decreases self.chars.len() - i,
        {
            i += 1;
        }
        i
    }

    /// The character `next` places after the cursor.
    pub fn peek(&self, next: usize) -> (r: Result<&char, LexerError>)
        requires
            self.pos() + next <= usize::MAX,
        ensures
            match r {
                Ok(c) => self.pos() + next < self.buffer().len() && *c == self.buffer()[self.pos()
                    + next],
                Err(e) => self.pos() + next >= self.buffer().len() && e == LexerError::PeekError(
                    (self.pos() + next) as usize,
                ),
            },
    {
        self.peek_at(self.position + next)
    }

    /// The character `next` places before the cursor.
    pub fn peek_back(&self, next: usize) -> (r: Result<&char, LexerError>)
        requires
            next <= self.pos(),
        ensures
            match r {
                Ok(c) => self.pos() - next < self.buffer().len() && *c == self.buffer()[self.pos()
                    - next],
                Err(e) => self.pos() - next >= self.buffer().len() && e == LexerError::PeekError(
                    (self.pos() - next) as usize,
                ),
            },
    {
        self.peek_at(self.position - next)
    }

    /// The character at `index`.
    pub fn peek_at(&self, index: usize) -> (r: Result<&char, LexerError>)
        ensures
            match r {
                Ok(c) => index < self.buffer().len() && *c == self.buffer()[index as int],
                Err(e) => index >= self.buffer().len() && e == LexerError::PeekError(index),
            },
    {
        if index < self.chars.len() {
            Ok(&self.chars[index])
        } else {
            Err(LexerError::PeekError(index))
        }
    }

    /// The bounds, both included, of the characters from the cursor up to the
    /// first `c`, or up to the end of the buffer.
    pub fn peek_till(&self, c: char) -> (r: (usize, usize))
        requires
            self.pos() <= self.buffer().len(),
            index_of(self.buffer(), self.pos(), c) >= 1,
        ensures
            r.0 == self.pos(),
            r.1 == index_of(self.buffer(), self.pos(), c) - 1,
    {
        let stop = self.find_from(self.position, c);
        (self.position, stop - 1)
    }

    /// The bounds, both included, of the run of equal characters at the cursor.
    pub fn peek_till_diff(&self) -> (r: (usize, usize))
        requires
            self.pos() < self.buffer().len(),
        ensures
            r.0 == self.pos(),
            r.1 == run_end(self.buffer(), self.pos()) - 1,
            r.0 <= r.1 < self.buffer().len(),
    {
        let mut j: usize = self.position;
        while j + 1 < self.chars.len() && self.chars[j + 1] == self.chars[j]
            invariant
                self.position <= j < self.chars.len(),
                run_end(self.chars@, j as int) == run_end(self.chars@, self.position as int),
            decreases self.chars.len() - j,
        {
            j += 1;
        }
        (self.position, j)
    }

    /// The bounds, both included, of the first match of the regular
    /// expression `pattern` in the text from the cursor on, counted in bytes
    /// from the cursor. Where nothing matches, and where the match is empty
    /// and begins the text, both bounds are the cursor.
    pub fn peek_regex(&self, pattern: &str) -> (r: (usize, usize))
        requires
            self.pos() <= self.buffer().len(),
        ensures
            r == match_bounds(
                self.pos(),
                crate::markup::regex_found(
                    pattern@,
                    self.buffer().subrange(self.pos(), self.buffer().len() as int),
                ),
            ),
    {
        let mut s = String::new();
        push_range(&mut s, &self.chars, self.position, self.chars.len());
        proof {
            assert(s@ =~= self.buffer().subrange(self.pos(), self.buffer().len() as int));
        }
        match crate::markup::regex_find(pattern, s.as_str()) {
            Some((start, end)) => {
                if end >= 1 && start <= usize::MAX - self.position && end - 1 <= usize::MAX
                    - self.position {
                    (start + self.position, end - 1 + self.position)
                } else {
                    (self.position, self.position)
                }
            },
            None => (self.position, self.position),
        }
    }

    /// The characters `start..=end` of the buffer.
    pub fn get_range(&self, start: usize, end: usize) -> (r: Vec<char>)
        requires
            start <= end + 1 <= self.buffer().len(),
        ensures
            r@ == self.buffer().subrange(start as int, end + 1),
    {
        let mut v: Vec<char> = Vec::new();
        let mut i: usize = start;
        while i <= end
            invariant
                start <= i <= end + 1 <= self.chars.len(),
                v@ == self.chars@.subrange(start as int, i as int),
            decreases end + 1 - i,
        {
            v.push(self.chars[i]);
            proof {
                assert(self.chars@.subrange(start as int, i + 1) =~= self.chars@.subrange(
                    start as int,
                    i as int,
                ).push(self.chars@[i as int]));
            }
            i += 1;
        }
        v
    }

    /// The token of kind `kind` over the one character at the cursor.
    pub fn make_token_at_pos(&self, kind: TokenType) -> (r: Result<Token, LexerError>)
        ensures
            match r {
                Ok(t) => self.pos() < self.buffer().len() && t@ == single(
                    self.buffer(),
                    self.pos(),
                    kind,
                ),
                Err(e) => self.pos() >= self.buffer().len() && e == LexerError::GetCharError,
            },
    {
        if self.position < self.chars.len() {
            let mut text: Vec<char> = Vec::new();
            text.push(self.chars[self.position]);
            proof {
                assert(text@ =~= seq![self.chars@[self.position as int]]);
            }
            Ok(Token::new(kind, text, self.position, self.position))
        } else {
            Err(LexerError::GetCharError)
        }
    }

    fn make_span(&self, start: usize, end: usize, kind: TokenType) -> (t: Token)
        requires
            start <= end < self.buffer().len(),
        ensures
            t@ == span(self.buffer(), start as int, end as int, kind),
    {
        Token::new(kind, self.get_range(start, end), start, end)
    }

    fn char_after_run(&self) -> (c: char)
        requires
            self.pos() < self.buffer().len(),
        ensures
            c == after_run(self.buffer(), self.pos()),
    {
        let n: usize = self.chars.len();
        let diff = self.peek_till_diff();
        if diff.1 + 1 < n {
            self.chars[diff.1 + 1]
        } else {
            'a'
        }
    }

    /// The token at a `#`.
    pub fn handle_hash(&self) -> (r: Result<Token, LexerError>)
        requires
            self.pos() < self.buffer().len(),
        ensures
            r matches Ok(t) && t@ == single(
                self.buffer(),
                self.pos(),
                hash_kind(self.buffer(), self.pos()),
            ),
    {
        if self.char_after_run() == ' ' {
            self.make_token_at_pos(TokenType::Hash)
        } else {
            self.make_token_at_pos(TokenType::Text)
        }
    }

    /// The token at a `!`.
    pub fn handle_exclamation(&self) -> (r: Result<Token, LexerError>)
        requires
            self.pos() < self.buffer().len(),
        ensures
            r matches Ok(t) && t@ == single(
                self.buffer(),
                self.pos(),
                exclamation_kind(self.buffer(), self.pos()),
            ),
    {
        if self.char_after_run() == ' ' {
            self.make_token_at_pos(TokenType::Text)
        } else {
            self.make_token_at_pos(TokenType::Exclamation)
        }
    }

    /// The token at a `>`.
    pub fn handle_greaterthan(&self) -> (r: Result<Token, LexerError>)
        requires
            self.pos() < self.buffer().len(),
        ensures
            r matches Ok(t) && t@ == single(
                self.buffer(),
                self.pos(),
                greater_kind(self.buffer(), self.pos(), self.current_tok().kind),
            ),
    {
        let n: usize = self.chars.len();
        if self.current_token.kind == TokenType::EndOfLine {
            if let Ok(c) = self.peek(1) {
                if *c == ' ' {
                    return self.make_token_at_pos(TokenType::GreaterThan);
                }
            }
        }
        self.make_token_at_pos(TokenType::Text)
    }

    /// The token at a space.
    pub fn handle_whitespace(&self) -> (r: Result<Token, LexerError>)
        requires
            self.pos() < self.buffer().len(),
        ensures
            r matches Ok(t) && t@ == single(
                self.buffer(),
                self.pos(),
                space_kind(self.current_tok().kind),
            ),
    {
        match self.current_token.kind {
            TokenType::Whitespace | TokenType::EndOfLine => self.make_token_at_pos(
                TokenType::Whitespace,
            ),
            _ => self.make_token_at_pos(TokenType::Text),
        }
    }

    /// The token at a digit. The cursor moves to the last character of a list
    /// number.
    pub fn handle_number(&mut self) -> (r: Result<Token, LexerError>)
        requires
            old(self).pos() < old(self).buffer().len(),
        ensures
            final(self).same_document(old(self)),
            final(self).current_tok() == old(self).current_tok(),
            final(self).tokens == old(self).tokens,
            r matches Ok(t) && t@ == number_token(old(self).buffer(), old(self).pos()) && final(self).pos() == t@.end,
    {
        let at_start = self.position == 0 || self.chars[self.position - 1] == '\n';
        if at_start {
            let mut e: usize = self.position;
            while e < self.chars.len() && self.chars[e] >= '0' && self.chars[e] <= '9'
                invariant
                    self.position <= e <= self.chars.len(),
                    digits_end(self.chars@, e as int) == digits_end(
                        self.chars@,
                        self.position as int,
                    ),
                decreases self.chars.len() - e,
            {
                e += 1;
            }
            if e < self.chars.len() && self.chars[e] == '.' {
                let t = self.make_span(self.position, e, TokenType::ListNumber);
                self.position = e;
                return Ok(t);
            }
        }
        self.make_token_at_pos(TokenType::Text)
    }

    /// The bounds of the run of `-` at the cursor, where it has exactly three.
    pub fn get_fm_start(&self) -> (r: Option<(usize, usize)>)
        requires
            self.pos() < self.buffer().len(),
        ensures
            match r {
                Some(b) => run_end(self.buffer(), self.pos()) == self.pos() + 3 && b.0
                    == self.pos() && b.1 == self.pos() + 2,
                None => run_end(self.buffer(), self.pos()) != self.pos() + 3,
            },
    {
        let diff = self.peek_till_diff();
        if diff.1 - self.position == 2 {
            return Some(diff);
        }
        None
    }

    /// The bounds of the first closing line of the front matter from `from` on.
    pub fn get_fm_end(&self, from: usize) -> (r: Option<(usize, usize)>)
        ensures
            match r {
                Some(b) => b.0 == find_close(self.buffer(), from as int) && b.1 == b.0 + 2 && b.1
                    + 1 < self.buffer().len(),
                None => find_close(self.buffer(), from as int) == -1,
            },
    {
        let n: usize = self.chars.len();
        if n < 4 {
            return None;
        }
        let mut i: usize = from;
        while i <= n - 4
            invariant
                n == self.chars.len(),
                n >= 4,
                from <= i,
                find_close(self.chars@, i as int) == find_close(self.chars@, from as int),
            decreases n - i,
        {
            if self.chars[i] == '-' && self.chars[i + 1] == '-' && self.chars[i + 2] == '-'
                && self.chars[i + 3] == '\n' {
                return Some((i, i + 2));
            }
            i += 1;
        }
        None
    }

    /// Completes the current token and begins the token that opens the front
    /// matter, over `start..=end`.
    pub fn append_fm_start_token(&mut self, start: usize, end: usize)
        requires
            start <= end < old(self).buffer().len(),
        ensures
            final(self).state() == push_token(
                old(self).state(),
                span(old(self).buffer(), start as int, end as int, TokenType::FrontmatterStart),
            ),
            final(self).same_document(old(self)),
    {
        let t = self.make_span(start, end, TokenType::FrontmatterStart);
        self.new_token(t);
    }

    /// Adds the tokens of the front matter's lines in `start..end`: one for
    /// each line break and one for each line that is not empty.
    pub fn append_fm_inside(&mut self, start: usize, end: usize)
        requires
            start <= end <= old(self).buffer().len(),
        ensures
            final(self).state() == front_matter_lines(
                old(self).buffer(),
                start as int,
                end as int,
                old(self).state(),
            ),
            final(self).same_document(old(self)),
    {
        let mut at: usize = start;
        while at < end
            invariant
                start <= at <= end <= self.chars.len(),
                self.same_document(old(self)),
                front_matter_lines(self.buffer(), at as int, end as int, self.state())
                    == front_matter_lines(
                    self.buffer(),
                    start as int,
                    end as int,
                    old(self).state(),
                ),
            decreases end - at,
        {
            if self.chars[at] == '\n' {
                let mut text: Vec<char> = Vec::new();
                text.push('\n');
                proof {
                    assert(text@ =~= seq![self.chars@[at as int]]);
                }
                let eol = Token::new(TokenType::EndOfLine, text, at, at);
                self.new_token(eol);
                at += 1;
            } else {
                let mut e: usize = at;
                while e < end && self.chars[e] != '\n'
                    invariant
                        at <= e <= end <= self.chars.len(),
                        line_end(self.chars@, e as int, end as int) == line_end(
                            self.chars@,
                            at as int,
                            end as int,
                        ),
                    decreases end - e,
                {
                    e += 1;
                }
                let t = self.make_span(at, e - 1, TokenType::FrontmatterInside);
                self.new_token(t);
                at = e;
            }
        }
    }

    /// Reads the front matter at the start of the buffer, where three `-`
    /// open it; a `-` that opens none is text.
    pub fn handle_fontmatter(&mut self) -> (r: Result<Token, LexerError>)
        requires
            old(self).pos() == 0,
            old(self).buffer().len() > 0,
            old(self).buffer()[0] == '-',
        ensures
            final(self).same_document(old(self)),
            match r {
                Ok(t) => if opens_front_matter(old(self).buffer()) {
                    front_matter_at(old(self).buffer(), old(self).state()) == Ok::<
                        (Tok, LexState),
                        LexerError,
                    >((t@, final(self).state()))
                } else {
                    t@ == single(old(self).buffer(), 0, TokenType::Text) && final(self).state() == old(self).state()
                },
                Err(e) => opens_front_matter(old(self).buffer()) && front_matter_at(
                    old(self).buffer(),
                    old(self).state(),
                ) == Err::<(Tok, LexState), LexerError>(e),
            },
    {
        proof {
            lemma_run_end(self.buffer(), 0);
            lemma_find_close(self.buffer(), 3);
        }
        if let Some(open) = self.get_fm_start() {
            match self.get_fm_end(open.1 + 1) {
                None => {
                    return Err(LexerError::FrontmatterError);
                },
                Some(close) => {
                    self.append_fm_start_token(open.0, open.1);
                    self.append_fm_inside(open.1 + 1, close.0);
                    self.position = close.1;
                    return Ok(self.make_span(close.0, close.1, TokenType::FrontmatterEnd));
                },
            }
        }
        self.make_token_at_pos(TokenType::Text)
    }

    /// The token at a `-` inside the document. The cursor moves to the last
    /// character of a rule.
    pub fn handle_dash(&mut self) -> (r: Result<Token, LexerError>)
        requires
            old(self).pos() < old(self).buffer().len(),
        ensures
            final(self).same_document(old(self)),
            final(self).current_tok() == old(self).current_tok(),
            final(self).tokens == old(self).tokens,
            r matches Ok(t) && t@ == dash_token(old(self).buffer(), old(self).pos()) && final(self).pos() == t@.end,
    {
        let p: usize = self.position;
        let n: usize = self.chars.len();
        if p >= 1 && p + 1 < n {
            let before = self.chars[p - 1];
            let after = self.chars[p + 1];
            if before == '\n' && after == '-' {
                let diff = self.peek_till_diff();
                if diff.1 == p + 2 && p + 3 < self.chars.len() && self.chars[p + 3] == '\n' {
                    let t = self.make_span(p, p + 2, TokenType::Dash);
                    self.position = p + 2;
                    return Ok(t);
                }
            } else if after == ' ' {
                return self.make_token_at_pos(TokenType::Dash);
            }
        }
        self.make_token_at_pos(TokenType::Text)
    }

    /// The token at the cursor. Front matter at the start of the buffer is
    /// read whole: its closing line is the token handed back.
    pub fn match_char(&mut self) -> (r: Result<Token, LexerError>)
        ensures
            final(self).same_document(old(self)),
            match r {
                Ok(t) => match_at(old(self).buffer(), old(self).state()) == Ok::<
                    (Tok, LexState),
                    LexerError,
                >((t@, final(self).state())),
                Err(e) => match_at(old(self).buffer(), old(self).state()) == Err::<
                    (Tok, LexState),
                    LexerError,
                >(e),
            },
    {
        if self.position >= self.chars.len() {
            return Err(LexerError::GetCharError);
        }
        let c = self.chars[self.position];
        if self.current_token.kind == TokenType::StartOfFile && self.position == 0 && c == '-' {
            return self.handle_fontmatter();
        }
        if c >= '0' && c <= '9' {
            return self.handle_number();
        }
        if c == ' ' {
            self.handle_whitespace()
        } else if c == '#' {
            self.handle_hash()
        } else if c == '!' {
            self.handle_exclamation()
        } else if c == '>' {
            self.handle_greaterthan()
        } else if c == '-' {
            self.handle_dash()
        } else {
            let kind = match c {
                '\n' => TokenType::EndOfLine,
                '$' => TokenType::DollarSign,
                '\t' => TokenType::Tab,
                '*' => TokenType::Asterisk,
                '_' => TokenType::Underscore,
                '[' => TokenType::BracketLeft,
                ']' => TokenType::BracketRight,
                '(' => TokenType::ParenthesisLeft,
                ')' => TokenType::ParenthesisRight,
                '`' => TokenType::Backtick,
                '{' => TokenType::CurlybraceLeft,
                '}' => TokenType::CurlybraceRight,
                '%' => TokenType::Percent,
                _ => TokenType::Text,
            };
            assert(kind == plain_kind(c));
            self.make_token_at_pos(kind)
        }
    }

    /// Reads the token at the cursor and takes it in: it extends the current
    /// token where both have the same kind, but a line break stands alone.
    pub fn read_char(&mut self) -> (r: Result<(), LexerError>)
        requires
            behind(old(self).state()),
        ensures
            final(self).same_document(old(self)),
            match r {
                Ok(_) => read_at(old(self).buffer(), old(self).state()) == Ok::<LexState, LexerError>(
                    final(self).state(),
                ),
                Err(e) => read_at(old(self).buffer(), old(self).state()) == Err::<
                    LexState,
                    LexerError,
                >(e),
            },
    {
        proof {
            lemma_read_at(self.buffer(), self.state());
        }
        let token = self.match_char()?;
        if token.kind == TokenType::EndOfLine {
            self.new_token(token);
        } else if token.kind == self.current_token.kind {
            self.current_token.append(token.text);
        } else {
            self.new_token(token);
        }
        Ok(())
    }

    /// Reads the buffer to its end and closes the token stream.
    pub fn read_until_eof(&mut self) -> (r: Result<(), LexerError>)
        requires
            behind(old(self).state()),
        ensures
            final(self).same_document(old(self)),
            match r {
                Ok(_) => lex_from(old(self).buffer(), old(self).state()) == Ok::<
                    Seq<Tok>,
                    LexerError,
                >(toks(final(self).tokens@)),
                Err(e) => lex_from(old(self).buffer(), old(self).state()) == Err::<
                    Seq<Tok>,
                    LexerError,
                >(e),
            },
    {
        loop
            invariant_except_break
                self.same_document(old(self)),
                behind(self.state()),
                lex_from(self.buffer(), self.state()) == lex_from(self.buffer(), old(self).state()),
            ensures
                self.same_document(old(self)),
                lex_from(self.buffer(), old(self).state()) == Ok::<Seq<Tok>, LexerError>(
                    toks(self.tokens@).push(self.current_tok()),
                ),
            decreases self.buffer().len() - self.pos(),
        {
            if self.position >= self.chars.len() {
                let n: usize = self.chars.len();
                self.new_token(Token::new(TokenType::EndOfFile, Vec::new(), n, n));
                break ;
            }
            let ghost before = self.state();
            proof {
                lemma_read_at(self.buffer(), before);
            }
            let start: usize = self.position;
            self.read_char()?;
            if !(start <= self.position && self.position < self.chars.len()) {
                let n: usize = self.chars.len();
                self.new_token(Token::new(TokenType::EndOfFile, Vec::new(), n, n));
                break ;
            }
            self.position = self.position + 1;
        }
        proof {
            lemma_toks_push(self.tokens@, self.current_token);
        }
        let last = self.current_token.clone();
        proof {
            lemma_toks_push(self.tokens@, last);
        }
        self.tokens.push(last);
        Ok(())
    }

    /// Lexes the whole buffer. On success `tokens` holds the token stream.
    pub fn run_lexer(&mut self) -> (r: Result<(), LexerError>)
        requires
            behind(old(self).state()),
        ensures
            final(self).same_document(old(self)),
            match r {
                Ok(_) => lex_from(old(self).buffer(), old(self).state()) == Ok::<
                    Seq<Tok>,
                    LexerError,
                >(toks(final(self).tokens@)),
                Err(e) => lex_from(old(self).buffer(), old(self).state()) == Err::<
                    Seq<Tok>,
                    LexerError,
                >(e),
            },
    {
        self.read_until_eof()
    }
}

} // verus!
