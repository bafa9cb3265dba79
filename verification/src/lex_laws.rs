//! Laws of the token stream.

use vstd::prelude::*;
use crate::lex_model::{
    behind, end_of_file, find_close, front_matter_lines, initial_state, lemma_digits_end,
    lemma_find_close, lemma_front_matter_lines, lemma_line_end, lemma_read_at, lemma_run_end,
    lemma_token_at, lex, lex_from, line_end, match_at, opens_front_matter, plain_kind, push_token,
    read_at, single, span, start_of_file, texts, token_at, LexState, LexerError,
};
use crate::token::{Tok, TokenType};

verus! {

/// The tokens of `st`, the current one included, spell the text before `upto`,
/// and the first of them is the opening sentinel.
pub open spec fn spells(s: Seq<char>, st: LexState, upto: int) -> bool {
    &&& 0 <= upto <= s.len()
    &&& texts(st.done) + st.cur.text == s.take(upto)
    &&& if st.done.len() == 0 {
        st.cur == start_of_file()
    } else {
        st.done[0] == start_of_file()
    }
}

proof fn lemma_texts_push(tokens: Seq<Tok>, t: Tok)
    ensures
        texts(tokens.push(t)) == texts(tokens) + t.text,
{
    assert(tokens.push(t).drop_last() =~= tokens);
}

proof fn lemma_push_spells(s: Seq<char>, st: LexState, from: int, t: Tok)
    requires
        spells(s, st, from),
        from <= t.end + 1 <= s.len(),
        t.text == s.subrange(from, t.end + 1),
    ensures
        spells(s, push_token(st, t), t.end + 1),
{
    lemma_texts_push(st.done, st.cur);
    assert(s.take(from) + s.subrange(from, t.end + 1) =~= s.take(t.end + 1));
}

proof fn lemma_lines_spell(s: Seq<char>, pos: int, end: int, st: LexState)
    requires
        0 <= pos <= end <= s.len(),
        spells(s, st, pos),
    ensures
        spells(s, front_matter_lines(s, pos, end, st), end),
    decreases end - pos,
{
    if pos < end {
        if s[pos] == '\n' {
            let t = single(s, pos, TokenType::EndOfLine);
            assert(t.text =~= s.subrange(pos, pos + 1));
            lemma_push_spells(s, st, pos, t);
            lemma_lines_spell(s, pos + 1, end, push_token(st, t));
        } else {
            lemma_line_end(s, pos, end);
            let e = line_end(s, pos, end);
            let t = span(s, pos, e - 1, TokenType::FrontmatterInside);
            lemma_push_spells(s, st, pos, t);
            lemma_lines_spell(s, e, end, push_token(st, t));
        }
    }
}

proof fn lemma_read_spells(s: Seq<char>, st: LexState)
    requires
        behind(st),
        spells(s, st, st.pos),
    ensures
        match read_at(s, st) {
            Ok(next) => spells(s, next, next.pos + 1),
            Err(_) => true,
        },
{
    lemma_read_at(s, st);
    if 0 <= st.pos < s.len() {
        if st.cur.kind == TokenType::StartOfFile && st.pos == 0 && s[0] == '-' {
            if opens_front_matter(s) {
                lemma_find_close(s, 3);
                let k = find_close(s, 3);
                if k >= 0 {
                    let open = span(s, 0, 2, TokenType::FrontmatterStart);
                    let opened = push_token(st, open);
                    lemma_push_spells(s, st, 0, open);
                    lemma_lines_spell(s, 3, k, opened);
                    lemma_front_matter_lines(s, 3, k, opened);
                    let inside = front_matter_lines(s, 3, k, opened);
                    let found = LexState { pos: k + 2, cur: inside.cur, done: inside.done };
                    let close = span(s, k, k + 2, TokenType::FrontmatterEnd);
                    lemma_push_spells(s, found, k, close);
                }
            } else {
                let t = single(s, 0, TokenType::Text);
                assert(t.text =~= s.subrange(0, 1));
                lemma_push_spells(s, st, 0, t);
            }
        } else {
            lemma_token_at(s, st.pos, st.cur.kind);
            let t = token_at(s, st.pos, st.cur.kind);
            let found = LexState { pos: t.end, cur: st.cur, done: st.done };
            if t.kind != TokenType::EndOfLine && t.kind == st.cur.kind {
                assert(s.take(st.pos) + s.subrange(st.pos, t.end + 1) =~= s.take(t.end + 1));
                assert(texts(st.done) + (st.cur.text + t.text) =~= (texts(st.done)
                    + st.cur.text) + t.text);
            } else {
                lemma_push_spells(s, found, st.pos, t);
            }
        }
    }
}

proof fn lemma_lex_from_spells(s: Seq<char>, st: LexState)
    requires
        behind(st),
        spells(s, st, st.pos),
    ensures
        match lex_from(s, st) {
            Ok(tokens) => tokens.len() >= 2 && tokens.first() == start_of_file() && tokens.last()
                == end_of_file(s.len() as int) && texts(tokens) == s,
            Err(_) => true,
        },
    decreases s.len() - st.pos,
{
    if st.pos >= s.len() {
        let all = st.done.push(st.cur);
        lemma_texts_push(st.done, st.cur);
        lemma_texts_push(all, end_of_file(s.len() as int));
        assert(s.take(s.len() as int) =~= s);
        assert(texts(all.push(end_of_file(s.len() as int))) =~= s);
    } else {
        lemma_read_at(s, st);
        lemma_read_spells(s, st);
        match read_at(s, st) {
            Err(_) => {},
            Ok(next) => {
                lemma_lex_from_spells(
                    s,
                    LexState { pos: next.pos + 1, cur: next.cur, done: next.done },
                );
            },
        }
    }
}

/// Framing: the token stream of a text begins with the opening sentinel,
/// ends with the closing sentinel, and the characters of its tokens, one
/// after the other, are the text.
pub proof fn lemma_framing(s: Seq<char>)
    ensures
        match lex(s) {
            Ok(tokens) => tokens.len() >= 2 && tokens.first() == start_of_file() && tokens.last()
                == end_of_file(s.len() as int) && texts(tokens) == s,
            Err(_) => true,
        },
{
    assert(s.take(0) =~= Seq::<char>::empty());
    assert(texts(Seq::<Tok>::empty()) + start_of_file().text =~= s.take(0));
    lemma_lex_from_spells(s, initial_state());
}

/// The text of `n` times the character `c`.
pub open spec fn repeated(c: char, n: nat) -> Seq<char> {
    Seq::new(n, |i: int| c)
}

/// The kind of the one token of a text that repeats `c`.
pub open spec fn uniform_kind(c: char) -> TokenType {
    if c == '!' {
        TokenType::Exclamation
    } else {
        plain_kind(c)
    }
}

/// The marks that are a token of their own kind wherever they stand.
pub open spec fn is_mark(c: char) -> bool {
    c == '$' || c == '\t' || c == '*' || c == '_' || c == '[' || c == ']' || c == '(' || c == ')'
        || c == '`' || c == '{' || c == '}' || c == '%'
}

/// The one token of a text that repeats `c`, `n` times.
pub open spec fn uniform_token(c: char, n: nat) -> Tok {
    Tok { kind: uniform_kind(c), text: repeated(c, n), start: 0, end: n - 1 }
}

proof fn lemma_uniform_from(c: char, n: nat, i: int)
    requires
        c != '\n',
        !(c == '-' && n == 3),
        1 <= i < n,
    ensures
        lex_from(
            repeated(c, n),
            LexState {
                pos: i,
                cur: Tok { kind: uniform_kind(c), text: repeated(c, i as nat), start: 0, end: i - 1 },
                done: seq![start_of_file()],
            },
        ) == Ok::<Seq<Tok>, LexerError>(
            seq![start_of_file(), uniform_token(c, n), end_of_file(n as int)],
        ),
    decreases n - i,
{
    let s = repeated(c, n);
    let cur = Tok { kind: uniform_kind(c), text: repeated(c, i as nat), start: 0, end: i - 1 };
    let st = LexState { pos: i, cur, done: seq![start_of_file()] };
    lemma_run_end(s, i);
    lemma_digits_end(s, i);
    let t = token_at(s, i, cur.kind);
    assert(t == single(s, i, uniform_kind(c)));
    let merged = Tok { text: cur.text + t.text, end: cur.end + t.text.len(), ..cur };
    assert(merged.text =~= repeated(c, (i + 1) as nat));
    assert(read_at(s, st) == Ok::<LexState, LexerError>(
        LexState { pos: i, cur: merged, done: st.done },
    ));
    if i + 1 >= n {
        let end = LexState { pos: i + 1, cur: merged, done: st.done };
        assert(lex_from(s, end) == Ok::<Seq<Tok>, LexerError>(
            st.done.push(merged).push(end_of_file(n as int)),
        ));
        assert(st.done.push(merged).push(end_of_file(n as int)) =~= seq![
            start_of_file(),
            uniform_token(c, n),
            end_of_file(n as int),
        ]);
    } else {
        lemma_uniform_from(c, n, i + 1);
    }
}

/// Coalescing: a text that repeats one character other than a line break is
/// one token as long as the text, between the two sentinels. Three `-` are
/// left out: they open front matter.
pub proof fn lemma_coalescing(c: char, n: nat)
    requires
        n >= 1,
        c != '\n',
        !(c == '-' && n == 3),
    ensures
        lex(repeated(c, n)) == Ok::<Seq<Tok>, LexerError>(
            seq![start_of_file(), uniform_token(c, n), end_of_file(n as int)],
        ),
        is_mark(c) ==> uniform_token(c, n).kind == plain_kind(c) && plain_kind(c)
            != TokenType::Text,
{
    let s = repeated(c, n);
    let st = initial_state();
    lemma_run_end(s, 0);
    lemma_digits_end(s, 0);
    let t = single(s, 0, uniform_kind(c));
    assert(match_at(s, st) matches Ok((found_t, found)) && found_t == t && found.cur == st.cur
        && found.done == st.done && found.pos == 0);
    assert(t.text =~= repeated(c, 1));
    let next = LexState { pos: 0, cur: t, done: st.done.push(st.cur) };
    assert(read_at(s, st) == Ok::<LexState, LexerError>(next));
    assert(next.done =~= seq![start_of_file()]);
    if 1 >= n {
        let end = LexState { pos: 1, cur: next.cur, done: next.done };
        assert(lex_from(s, end) == Ok::<Seq<Tok>, LexerError>(
            next.done.push(next.cur).push(end_of_file(n as int)),
        ));
        assert(next.done.push(next.cur).push(end_of_file(n as int)) =~= seq![
            start_of_file(),
            uniform_token(c, n),
            end_of_file(n as int),
        ]);
    } else {
        lemma_uniform_from(c, n, 1);
    }
}

} // verus!

verus! {

/// The tokens after the opening sentinel lie one after the other and cover
/// the text before `upto`: each holds the characters between its bounds, the
/// first begins at 0, and each other begins where the one before it ends.
pub open spec fn tiles(s: Seq<char>, tokens: Seq<Tok>, upto: int) -> bool {
    &&& tokens.len() >= 1
    &&& tokens[0] == start_of_file()
    &&& forall|i: int| 1 <= i < tokens.len() ==> #[trigger] placed(s, tokens, i)
    &&& upto == (if tokens.len() == 1 {
        0
    } else {
        tokens.last().end + 1
    })
}

/// The token at `i` holds the characters between its bounds, and begins at
/// 0 where it is the first after the opening sentinel, or else where the
/// token before it ends.
pub open spec fn placed(s: Seq<char>, tokens: Seq<Tok>, i: int) -> bool {
    &&& 0 <= tokens[i].start <= tokens[i].end < s.len()
    &&& tokens[i].text == s.subrange(tokens[i].start, tokens[i].end + 1)
    &&& tokens[i].start == (if i == 1 {
        0
    } else {
        tokens[i - 1].end + 1
    })
}

/// The tokens of the state tile the text before `upto`.
pub open spec fn state_tiles(s: Seq<char>, st: LexState, upto: int) -> bool {
    tiles(s, st.done.push(st.cur), upto)
}

proof fn lemma_push_tiles(s: Seq<char>, st: LexState, t: Tok)
    requires
        state_tiles(s, st, t.start),
        0 <= t.start <= t.end < s.len(),
        t.text == s.subrange(t.start, t.end + 1),
    ensures
        state_tiles(s, push_token(st, t), t.end + 1),
{
    let before = st.done.push(st.cur);
    let after = before.push(t);
    assert(push_token(st, t).done.push(push_token(st, t).cur) =~= after);
    assert forall|i: int| 1 <= i < after.len() implies #[trigger] placed(s, after, i) by {
        if i < before.len() {
            assert(placed(s, before, i));
            assert(after[i] == before[i]);
            if i > 1 {
                assert(after[i - 1] == before[i - 1]);
            }
        } else if i > 1 {
            assert(after[i - 1] == before.last());
        }
    }
}

proof fn lemma_lines_tile(s: Seq<char>, pos: int, end: int, st: LexState)
    requires
        0 <= pos <= end <= s.len(),
        state_tiles(s, st, pos),
    ensures
        state_tiles(s, front_matter_lines(s, pos, end, st), end),
    decreases end - pos,
{
    if pos < end {
        if s[pos] == '\n' {
            let t = single(s, pos, TokenType::EndOfLine);
            assert(t.text =~= s.subrange(pos, pos + 1));
            lemma_push_tiles(s, st, t);
            lemma_lines_tile(s, pos + 1, end, push_token(st, t));
        } else {
            lemma_line_end(s, pos, end);
            let e = line_end(s, pos, end);
            let t = span(s, pos, e - 1, TokenType::FrontmatterInside);
            lemma_push_tiles(s, st, t);
            lemma_lines_tile(s, e, end, push_token(st, t));
        }
    }
}

proof fn lemma_read_tiles(s: Seq<char>, st: LexState)
    requires
        behind(st),
        state_tiles(s, st, st.pos),
    ensures
        match read_at(s, st) {
            Ok(next) => state_tiles(s, next, next.pos + 1),
            Err(_) => true,
        },
{
    lemma_read_at(s, st);
    if 0 <= st.pos < s.len() {
        if st.cur.kind == TokenType::StartOfFile && st.pos == 0 && s[0] == '-' {
            if opens_front_matter(s) {
                lemma_find_close(s, 3);
                let k = find_close(s, 3);
                if k >= 0 {
                    let open = span(s, 0, 2, TokenType::FrontmatterStart);
                    let opened = push_token(st, open);
                    lemma_push_tiles(s, st, open);
                    lemma_lines_tile(s, 3, k, opened);
                    let inside = front_matter_lines(s, 3, k, opened);
                    let found = LexState { pos: k + 2, cur: inside.cur, done: inside.done };
                    let close = span(s, k, k + 2, TokenType::FrontmatterEnd);
                    lemma_front_matter_lines(s, 3, k, opened);
                    lemma_push_tiles(s, found, close);
                }
            } else {
                let t = single(s, 0, TokenType::Text);
                assert(t.text =~= s.subrange(0, 1));
                lemma_push_tiles(s, st, t);
            }
        } else {
            lemma_token_at(s, st.pos, st.cur.kind);
            let t = token_at(s, st.pos, st.cur.kind);
            let found = LexState { pos: t.end, cur: st.cur, done: st.done };
            if t.kind != TokenType::EndOfLine && t.kind == st.cur.kind {
                let merged = Tok {
                    text: st.cur.text + t.text,
                    end: st.cur.end + t.text.len(),
                    ..st.cur
                };
                let before = st.done.push(st.cur);
                let after = st.done.push(merged);
                assert(before.len() >= 2);
                assert(before.last() == st.cur);
                assert(placed(s, before, before.len() - 1));
                assert(st.cur.end + 1 == st.pos);
                assert(merged.text =~= s.subrange(st.cur.start, t.end + 1));
                assert forall|i: int| 1 <= i < after.len() implies #[trigger] placed(
                    s,
                    after,
                    i,
                ) by {
                    assert(placed(s, before, i));
                    if i < after.len() - 1 {
                        assert(after[i] == before[i]);
                    } else {
                        assert(before[i] == st.cur);
                    }
                    if i > 1 {
                        assert(after[i - 1] == before[i - 1]);
                    }
                }
            } else {
                lemma_push_tiles(s, found, t);
            }
        }
    }
}

proof fn lemma_lex_from_tiles(s: Seq<char>, st: LexState)
    requires
        behind(st),
        state_tiles(s, st, st.pos),
        st.pos <= s.len(),
    ensures
        match lex_from(s, st) {
            Ok(tokens) => tokens.len() >= 2 && tiles(s, tokens.drop_last(), s.len() as int)
                && tokens.last() == end_of_file(s.len() as int),
            Err(_) => true,
        },
    decreases s.len() - st.pos,
{
    if st.pos >= s.len() {
        let all = st.done.push(st.cur);
        assert(all.push(end_of_file(s.len() as int)).drop_last() =~= all);
    } else {
        lemma_read_at(s, st);
        lemma_read_tiles(s, st);
        match read_at(s, st) {
            Err(_) => {},
            Ok(next) => {
                lemma_lex_from_tiles(
                    s,
                    LexState { pos: next.pos + 1, cur: next.cur, done: next.done },
                );
            },
        }
    }
}

/// Partition: the tokens between the two sentinels lie one after the other
/// and cover the text: each holds the characters between its bounds, the
/// first begins at 0, each other begins where the one before it ends, and
/// the last ends with the text.
pub proof fn lemma_partition(s: Seq<char>)
    ensures
        match lex(s) {
            Ok(tokens) => tokens.len() >= 2 && tiles(s, tokens.drop_last(), s.len() as int)
                && tokens.last() == end_of_file(s.len() as int),
            Err(_) => true,
        },
{
    let st = initial_state();
    assert(st.done.push(st.cur) =~= seq![start_of_file()]);
    lemma_lex_from_tiles(s, st);
}

} // verus!

verus! {

/// The token at `i` and the one after it are of different kinds, or line
/// breaks.
pub open spec fn differs(tokens: Seq<Tok>, i: int) -> bool {
    tokens[i].kind != tokens[i + 1].kind || tokens[i].kind == TokenType::EndOfLine
}

/// No two tokens that follow each other are of the same kind, line breaks
/// apart.
pub open spec fn merged(tokens: Seq<Tok>) -> bool {
    forall|i: int| 0 <= i < tokens.len() - 1 ==> #[trigger] differs(tokens, i)
}

/// The tokens of the state are merged.
pub open spec fn state_merged(st: LexState) -> bool {
    merged(st.done.push(st.cur))
}

proof fn lemma_push_merged(st: LexState, t: Tok)
    requires
        state_merged(st),
        t.kind != st.cur.kind || t.kind == TokenType::EndOfLine,
    ensures
        state_merged(push_token(st, t)),
{
    let before = st.done.push(st.cur);
    let after = before.push(t);
    assert(push_token(st, t).done.push(push_token(st, t).cur) =~= after);
    assert forall|i: int| 0 <= i < after.len() - 1 implies #[trigger] differs(after, i) by {
        if i < before.len() - 1 {
            assert(differs(before, i));
            assert(after[i] == before[i]);
            assert(after[i + 1] == before[i + 1]);
        } else {
            assert(after[i] == st.cur);
        }
    }
}

proof fn lemma_lines_merged(s: Seq<char>, pos: int, end: int, st: LexState)
    requires
        0 <= pos <= end <= s.len(),
        state_merged(st),
        st.cur.kind != TokenType::FrontmatterInside || pos == end || s[pos] == '\n',
    ensures
        state_merged(front_matter_lines(s, pos, end, st)),
    decreases end - pos,
{
    if pos < end {
        if s[pos] == '\n' {
            let t = single(s, pos, TokenType::EndOfLine);
            lemma_push_merged(st, t);
            lemma_lines_merged(s, pos + 1, end, push_token(st, t));
        } else {
            lemma_line_end(s, pos, end);
            let e = line_end(s, pos, end);
            let t = span(s, pos, e - 1, TokenType::FrontmatterInside);
            lemma_push_merged(st, t);
            lemma_lines_merged(s, e, end, push_token(st, t));
        }
    }
}

proof fn lemma_read_merged(s: Seq<char>, st: LexState)
    requires
        behind(st),
        state_merged(st),
    ensures
        match read_at(s, st) {
            Ok(next) => state_merged(next),
            Err(_) => true,
        },
{
    lemma_read_at(s, st);
    if 0 <= st.pos < s.len() {
        if st.cur.kind == TokenType::StartOfFile && st.pos == 0 && s[0] == '-' {
            if opens_front_matter(s) {
                lemma_find_close(s, 3);
                let k = find_close(s, 3);
                if k >= 0 {
                    let open = span(s, 0, 2, TokenType::FrontmatterStart);
                    let opened = push_token(st, open);
                    lemma_push_merged(st, open);
                    lemma_lines_merged(s, 3, k, opened);
                    lemma_front_matter_lines(s, 3, k, opened);
                    let inside = front_matter_lines(s, 3, k, opened);
                    let found = LexState { pos: k + 2, cur: inside.cur, done: inside.done };
                    let close = span(s, k, k + 2, TokenType::FrontmatterEnd);
                    lemma_push_merged(found, close);
                }
            } else {
                lemma_push_merged(st, single(s, 0, TokenType::Text));
            }
        } else {
            lemma_token_at(s, st.pos, st.cur.kind);
            let t = token_at(s, st.pos, st.cur.kind);
            let found = LexState { pos: t.end, cur: st.cur, done: st.done };
            if t.kind != TokenType::EndOfLine && t.kind == st.cur.kind {
                let grown = Tok {
                    text: st.cur.text + t.text,
                    end: st.cur.end + t.text.len(),
                    ..st.cur
                };
                let before = st.done.push(st.cur);
                let after = st.done.push(grown);
                assert forall|i: int| 0 <= i < after.len() - 1 implies #[trigger] differs(
                    after,
                    i,
                ) by {
                    assert(differs(before, i));
                    assert(after[i] == before[i]);
                    assert(after[i + 1].kind == before[i + 1].kind);
                }
            } else {
                lemma_push_merged(found, t);
            }
        }
    }
}

proof fn lemma_lex_from_merged(s: Seq<char>, st: LexState)
    requires
        behind(st),
        state_merged(st),
        st.cur.kind != TokenType::EndOfFile,
    ensures
        match lex_from(s, st) {
            Ok(tokens) => merged(tokens),
            Err(_) => true,
        },
    decreases s.len() - st.pos,
{
    if st.pos < 0 || st.pos >= s.len() {
        lemma_push_merged(st, end_of_file(s.len() as int));
    } else {
        lemma_read_at(s, st);
        lemma_read_merged(s, st);
        match read_at(s, st) {
            Err(_) => {},
            Ok(next) => {
                if st.pos <= next.pos < s.len() {
                    lemma_lex_from_merged(
                        s,
                        LexState { pos: next.pos + 1, cur: next.cur, done: next.done },
                    );
                } else {
                    lemma_push_merged(next, end_of_file(s.len() as int));
                }
            },
        }
    }
}

/// Merging: in the token stream of a text no two tokens that follow each
/// other are of the same kind, line breaks apart.
pub proof fn lemma_tokens_are_merged(s: Seq<char>)
    ensures
        match lex(s) {
            Ok(tokens) => merged(tokens),
            Err(_) => true,
        },
{
    let st = initial_state();
    assert(st.done.push(st.cur) =~= seq![start_of_file()]);
    lemma_lex_from_merged(s, st);
}

} // verus!
