//! What the parser computes, as functions on the token stream and the state
//! of the parser.

use vstd::prelude::*;
use crate::custom::{custom_of, CustomFault, CustomModel};
use crate::lex_model::{is_digit, texts};
use crate::text::decimal;
use crate::token::{Tok, TokenType};
use crate::tree::{leaf, push_at, KindModel, Node};

verus! {

/// The ways in which parsing can fail.
pub enum Fault {
    GetToken(usize),
    Move(usize),
    Peek(usize),
    WhitespaceError,
    CouldNotFindPattern,
    CustomElement(CustomFault),
    MathError,
}

/// The state of the parser: the cursor into the token stream, the element
/// that is open, the elements that are complete, the state of the line, and
/// the ids that were given out.
pub struct Doc {
    pub index: int,
    pub current: Option<Node>,
    pub ast: Seq<Node>,
    pub new_line: bool,
    pub inside: Seq<u32>,
    pub indent_level: int,
    pub has_custom: bool,
    pub seed: u32,
    pub issued: int,
    pub front_matter: Option<Seq<char>>,
}

/// `x`, or the largest index where `x` is larger.
pub open spec fn clip(x: int) -> usize {
    if x > usize::MAX {
        usize::MAX
    } else if x < 0 {
        0
    } else {
        x as usize
    }
}

/// The number of characters that the bounds of a token enclose.
pub open spec fn tok_len(t: Tok) -> int {
    if t.end >= t.start {
        clip(t.end - t.start + 1) as int
    } else {
        0
    }
}

/// The `k`-th id that a parser with the seed `seed` gives out.
pub open spec fn id_at(seed: u32, k: int) -> u32 {
    ((seed + k) % 0x1_0000_0000) as u32
}

/// The token at the index `i`.
pub open spec fn token_at_index(ts: Seq<Tok>, i: int) -> Result<Tok, Fault> {
    if 0 <= i < ts.len() {
        Ok(ts[i])
    } else {
        Err(Fault::GetToken(clip(i)))
    }
}

/// Moves the cursor `n` tokens on. Fails where that leaves the stream.
pub open spec fn advance_by(ts: Seq<Tok>, st: Doc, n: int) -> Result<Doc, Fault> {
    if st.index + n >= ts.len() {
        Err(Fault::Move(clip(st.index + n)))
    } else {
        Ok(Doc { index: st.index + n, ..st })
    }
}

/// Moves the cursor `n` tokens back. Fails where that leaves the stream.
pub open spec fn back_by(st: Doc, n: int) -> Result<Doc, Fault> {
    if n > st.index {
        Err(Fault::Move(clip(st.index + n)))
    } else {
        Ok(Doc { index: st.index - n, ..st })
    }
}

/// The first index from `from` on of a token of the kind `kind`, or -1.
pub open spec fn first_of_kind(ts: Seq<Tok>, from: int, kind: TokenType) -> int
    decreases ts.len() - from,
{
    if from < 0 || from >= ts.len() {
        -1
    } else if ts[from].kind == kind {
        from
    } else {
        first_of_kind(ts, from + 1, kind)
    }
}

/// The first index from `from` on of a token of the kind `kind` that stands
/// before the next line break, or -1.
pub open spec fn first_in_line(ts: Seq<Tok>, from: int, kind: TokenType) -> int
    decreases ts.len() - from,
{
    if from < 0 || from >= ts.len() {
        -1
    } else if ts[from].kind == TokenType::EndOfLine {
        -1
    } else if ts[from].kind == kind {
        from
    } else {
        first_in_line(ts, from + 1, kind)
    }
}

/// The characters of the tokens `from..to`, one token after the other.
pub open spec fn text_between(ts: Seq<Tok>, from: int, to: int) -> Seq<char> {
    if 0 <= from <= to <= ts.len() {
        texts(ts.subrange(from, to))
    } else {
        Seq::empty()
    }
}

/// How many kinds from `from` on are the kind at `from`.
pub open spec fn kind_run(kinds: Seq<TokenType>, from: int) -> int
    decreases kinds.len() - from,
{
    if from < 0 || from >= kinds.len() {
        0
    } else if from + 1 < kinds.len() && kinds[from + 1] == kinds[from] {
        1 + kind_run(kinds, from + 1)
    } else {
        1
    }
}

/// The tokens from `i` on spell the kinds from `k` on: a token of text stands
/// for one kind, any other token for as many equal kinds as it is long.
pub open spec fn spells_kinds(ts: Seq<Tok>, i: int, kinds: Seq<TokenType>, k: int) -> bool
    decreases kinds.len() - k,
{
    if k < 0 || k >= kinds.len() {
        true
    } else if i < 0 || i >= ts.len() || ts[i].kind != kinds[k] {
        false
    } else if kinds[k] == TokenType::Text {
        spells_kinds(ts, i + 1, kinds, k + 1)
    } else {
        let run = kind_run(kinds, k);
        run >= 1 && k + run <= kinds.len() && tok_len(ts[i]) == run && spells_kinds(
            ts,
            i + 1,
            kinds,
            k + run,
        )
    }
}

/// The first index from `from` on at which the tokens spell `kinds`, or -1.
pub open spec fn find_pattern(ts: Seq<Tok>, from: int, kinds: Seq<TokenType>) -> int
    decreases ts.len() - from,
{
    if from < 0 || from >= ts.len() {
        -1
    } else if spells_kinds(ts, from, kinds, 0) {
        from
    } else {
        find_pattern(ts, from + 1, kinds)
    }
}

/// Gives out the next id. Fails where all ids were given out.
pub open spec fn take_id(st: Doc) -> Result<(u32, Doc), Fault> {
    if st.issued >= u32::MAX {
        Err(Fault::MathError)
    } else {
        Ok((id_at(st.seed, st.issued), Doc { issued: st.issued + 1, ..st }))
    }
}

/// The state of the line before anything stands on it.
pub open spec fn reset(st: Doc) -> Doc {
    Doc { new_line: true, inside: Seq::empty(), indent_level: 0, ..st }
}

/// Adds the element `n` to the document. A line end closes the open element:
/// both become top-level elements, and the line begins anew. Any other
/// element opens the line, or becomes the last child of the innermost
/// container that is open.
pub open spec fn append_node(st: Doc, n: Node) -> Doc {
    if n.kind is EndOfLine {
        match st.current {
            Some(c) => reset(Doc { ast: st.ast.push(c).push(n), current: None, ..st }),
            None => Doc { ast: st.ast.push(n), ..st },
        }
    } else {
        match st.current {
            Some(c) => Doc { current: Some(push_at(c, st.inside, n)), new_line: false, ..st },
            None => Doc { current: Some(n), new_line: false, ..st },
        }
    }
}

/// A node with a text.
pub open spec fn text_node(kind: KindModel, text: Seq<char>, id: u32) -> Node {
    Node { text: Some(text), ..leaf(kind, id) }
}

/// The element for the text `text`: at the start of a line a paragraph that
/// holds the text, elsewhere the text alone.
pub open spec fn make_text_of(st: Doc, text: Seq<char>) -> Result<(Node, Doc), Fault> {
    if st.new_line {
        match take_id(st) {
            Err(e) => Err(e),
            Ok((outer, st1)) => match take_id(st1) {
                Err(e) => Err(e),
                Ok((inner, st2)) => Ok(
                    (
                        Node {
                            children: seq![text_node(KindModel::Text, text, inner)],
                            ..leaf(KindModel::Paragraph, outer)
                        },
                        st2,
                    ),
                ),
            },
        }
    } else {
        match take_id(st) {
            Err(e) => Err(e),
            Ok((id, st1)) => Ok((text_node(KindModel::Text, text, id), st1)),
        }
    }
}

/// The element for the text of the token at the cursor.
pub open spec fn make_text(ts: Seq<Tok>, st: Doc) -> Result<(Node, Doc), Fault> {
    match token_at_index(ts, st.index) {
        Err(e) => Err(e),
        Ok(t) => make_text_of(st, t.text),
    }
}

/// Adds the token at the cursor as text.
pub open spec fn append_text(ts: Seq<Tok>, st: Doc) -> Result<Doc, Fault> {
    match make_text(ts, st) {
        Err(e) => Err(e),
        Ok((n, st1)) => Ok(append_node(st1, n)),
    }
}

/// Adds a new element of the kind `kind` without text.
pub open spec fn append_leaf(st: Doc, kind: KindModel) -> Result<Doc, Fault> {
    match take_id(st) {
        Err(e) => Err(e),
        Ok((id, st1)) => Ok(append_node(st1, leaf(kind, id))),
    }
}

/// Adds a new element of the kind `kind` with text and attributes.
pub open spec fn append_with(
    st: Doc,
    kind: KindModel,
    text: Option<Seq<char>>,
    attrs: Map<Seq<char>, Seq<char>>,
) -> Result<Doc, Fault> {
    match take_id(st) {
        Err(e) => Err(e),
        Ok((id, st1)) => Ok(append_node(st1, Node { text, attrs, ..leaf(kind, id) })),
    }
}

/// The name of the attribute that holds a level.
pub open spec fn key_level() -> Seq<char> {
    "level"@
}

/// The name of the attribute that holds the number of a list item.
pub open spec fn key_num() -> Seq<char> {
    "num"@
}

/// The name of the attribute that holds a language.
pub open spec fn key_lang() -> Seq<char> {
    "lang"@
}

/// The name of the attribute that holds the target of a link.
pub open spec fn key_link() -> Seq<char> {
    "link"@
}

/// A run of tabs sets the indentation to its length.
pub open spec fn handle_tab(ts: Seq<Tok>, st: Doc) -> Result<Doc, Fault> {
    match token_at_index(ts, st.index) {
        Err(e) => Err(e),
        Ok(t) => Ok(Doc { indent_level: tok_len(t), ..st }),
    }
}

/// A run of spaces whose length is a multiple of four sets the indentation
/// to a quarter of it; any other run is text.
pub open spec fn handle_whitespace(ts: Seq<Tok>, st: Doc) -> Result<Doc, Fault> {
    match token_at_index(ts, st.index) {
        Err(e) => Err(e),
        Ok(t) => if tok_len(t) % 4 != 0 {
            append_text(ts, st)
        } else {
            Ok(Doc { indent_level: tok_len(t) / 4, ..st })
        },
    }
}

/// A run of `#` is a header whose level is the length of the run.
pub open spec fn handle_hash(ts: Seq<Tok>, st: Doc) -> Result<Doc, Fault> {
    match token_at_index(ts, st.index) {
        Err(e) => Err(e),
        Ok(t) => append_with(
            st,
            KindModel::Header,
            None,
            Map::empty().insert(key_level(), decimal(tok_len(t) as nat)),
        ),
    }
}

/// At the start of a line one `-` is a list item at the current indentation,
/// and three before a line break are a rule. Any other run is text.
pub open spec fn handle_dash(ts: Seq<Tok>, st: Doc) -> Result<Doc, Fault> {
    match token_at_index(ts, st.index) {
        Err(e) => Err(e),
        Ok(t) => if st.new_line && tok_len(t) == 1 {
            append_with(
                st,
                KindModel::ListItem,
                None,
                Map::empty().insert(key_level(), decimal(st.indent_level as nat)),
            )
        } else if st.new_line && tok_len(t) == 3 {
            if st.index + 1 >= ts.len() {
                Err(Fault::Peek(clip(st.index + 1)))
            } else if ts[st.index + 1].kind == TokenType::EndOfLine {
                append_leaf(st, KindModel::HorizontalRule)
            } else {
                append_text(ts, st)
            }
        } else {
            append_text(ts, st)
        },
    }
}

/// The digits among the characters.
pub open spec fn digits_of(s: Seq<char>) -> Seq<char>
    decreases s.len(),
{
    if s.len() == 0 {
        Seq::empty()
    } else if is_digit(s.last()) {
        digits_of(s.drop_last()).push(s.last())
    } else {
        digits_of(s.drop_last())
    }
}

/// A list number is an item of an ordered list, with its digits and the
/// current indentation.
pub open spec fn handle_num(ts: Seq<Tok>, st: Doc) -> Result<Doc, Fault> {
    match token_at_index(ts, st.index) {
        Err(e) => Err(e),
        Ok(t) => append_with(
            st,
            KindModel::OrderedListElement,
            None,
            Map::empty().insert(key_num(), digits_of(t.text)).insert(
                key_level(),
                decimal(st.indent_level as nat),
            ),
        ),
    }
}

/// The kinds that end the block of a custom element that a line break follows.
pub open spec fn custom_end() -> Seq<TokenType> {
    seq![
        TokenType::EndOfLine,
        TokenType::CurlybraceRight,
        TokenType::CurlybraceRight,
        TokenType::EndOfLine,
    ]
}

/// The kinds that end the block of a custom element at the end of the text.
pub open spec fn custom_end_of_file() -> Seq<TokenType> {
    seq![
        TokenType::EndOfLine,
        TokenType::CurlybraceRight,
        TokenType::CurlybraceRight,
        TokenType::EndOfFile,
    ]
}

/// The index at which the block of a custom element ends, or -1.
pub open spec fn custom_close(ts: Seq<Tok>, from: int) -> int {
    if find_pattern(ts, from, custom_end()) >= 0 {
        find_pattern(ts, from, custom_end())
    } else {
        find_pattern(ts, from, custom_end_of_file())
    }
}

/// Reads the block of a custom element, from the cursor on its `%`. The
/// cursor ends on the `}}` that closes the block.
pub open spec fn make_custom(ts: Seq<Tok>, st: Doc) -> Result<(CustomModel, Doc), Fault> {
    match advance_by(ts, st, 2) {
        Err(e) => Err(e),
        Ok(st1) => {
            let end = custom_close(ts, st1.index);
            if end < 0 {
                Err(Fault::CouldNotFindPattern)
            } else {
                match advance_by(ts, st1, end - st1.index + 1) {
                    Err(e) => Err(e),
                    Ok(st2) => match custom_of(text_between(ts, st1.index, end)) {
                        Err(e) => Err(Fault::CustomElement(e)),
                        Ok(c) => Ok((c, st2)),
                    },
                }
            }
        },
    }
}

/// A `%` at the start of a line, before `{{`, opens a custom element. Any
/// other `%` is text.
pub open spec fn handle_percent(ts: Seq<Tok>, st: Doc) -> Result<Doc, Fault> {
    if st.index + 1 >= ts.len() || st.index < 0 {
        Err(Fault::Peek(clip(st.index + 1)))
    } else {
        let next = ts[st.index + 1];
        if st.new_line && next.kind == TokenType::CurlybraceLeft && tok_len(next) == 2 {
            match make_custom(ts, st) {
                Err(e) => Err(e),
                Ok((c, st1)) => match take_id(st1) {
                    Err(e) => Err(e),
                    Ok((id, st2)) => Ok(
                        Doc {
                            has_custom: true,
                            ..append_node(st2, leaf(KindModel::CustomElement(c), id))
                        },
                    ),
                },
            }
        } else {
            append_text(ts, st)
        }
    }
}

/// The kind of the container that a run of `kind` of the length `len` opens
/// and whose inside is text as it stands; `Text` where it opens none.
pub open spec fn text_container(kind: TokenType, len: int) -> KindModel {
    if kind == TokenType::DollarSign && len == 1 {
        KindModel::InlineLaTeX
    } else if kind == TokenType::DollarSign && len == 2 {
        KindModel::BlockLaTeX
    } else if kind == TokenType::Backtick && len == 1 {
        KindModel::InlineCode
    } else {
        KindModel::Text
    }
}

/// A run of `$`, or one backtick, opens a container whose inside is kept as
/// text. Where no marker of its kind closes it on its line, the run is text.
pub open spec fn handle_container_text(ts: Seq<Tok>, st: Doc, kind: TokenType) -> Result<
    Doc,
    Fault,
> {
    match token_at_index(ts, st.index) {
        Err(e) => Err(e),
        Ok(t) => {
            let elm_kind = text_container(kind, tok_len(t));
            if elm_kind is Text {
                append_text(ts, st)
            } else if st.index + 1 >= ts.len() {
                Err(Fault::Move(clip(st.index + 1)))
            } else {
                let close = first_in_line(ts, st.index + 1, kind);
                if close < 0 {
                    append_text(ts, st)
                } else {
                    match append_with(
                        Doc { index: close, ..st },
                        elm_kind,
                        Some(text_between(ts, st.index + 1, close)),
                        Map::empty(),
                    ) {
                        Err(e) => Err(e),
                        Ok(st1) => Ok(st1),
                    }
                }
            }
        },
    }
}

/// One backtick opens inline code. Three open a block of code that runs to
/// the next backtick: what stands before its first line break is the
/// language, the rest is the code. Any other run is text.
pub open spec fn handle_backtick(ts: Seq<Tok>, st: Doc) -> Result<Doc, Fault> {
    match token_at_index(ts, st.index) {
        Err(e) => Err(e),
        Ok(t) => if tok_len(t) == 1 {
            handle_container_text(ts, st, TokenType::Backtick)
        } else if tok_len(t) == 3 {
            if st.index + 1 >= ts.len() {
                Err(Fault::Move(clip(st.index + 1)))
            } else {
                let close = first_of_kind(ts, st.index + 1, TokenType::Backtick);
                if close < 0 {
                    Err(Fault::Peek(0))
                } else {
                    let eol = first_of_kind(ts, st.index + 1, TokenType::EndOfLine);
                    if eol < 0 || eol >= close {
                        Err(Fault::Peek(0))
                    } else {
                        append_with(
                            Doc { index: close, ..st },
                            KindModel::BlockCode,
                            Some(text_between(ts, eol, close)),
                            Map::empty().insert(
                                key_lang(),
                                text_between(ts, st.index + 1, eol),
                            ),
                        )
                    }
                }
            }
        } else {
            append_text(ts, st)
        },
    }
}

/// The text and the target of the link whose `[` is at `open`, and the index
/// of the `)` that closes it; `None` where the tokens are no link: where `]`
/// does not follow on the line, `(` does not follow it, or `)` does not
/// follow on the line.
pub open spec fn link_at(ts: Seq<Tok>, open: int) -> Option<(Seq<char>, Seq<char>, int)> {
    let close = first_in_line(ts, open + 1, TokenType::BracketRight);
    if close < 0 || close + 1 >= ts.len() || ts[close + 1].kind != TokenType::ParenthesisLeft {
        None
    } else {
        let end = first_in_line(ts, close + 2, TokenType::ParenthesisRight);
        if end < 0 {
            None
        } else {
            Some((text_between(ts, open + 1, close), text_between(ts, close + 2, end), end))
        }
    }
}

/// Adds the link at `open` as an element of the kind `kind`, or the token at
/// the cursor as text where there is no link.
pub open spec fn append_link(ts: Seq<Tok>, st: Doc, open: int, kind: KindModel) -> Result<
    Doc,
    Fault,
> {
    match link_at(ts, open) {
        None => append_text(ts, st),
        Some((text, url, end)) => append_with(
            Doc { index: end, ..st },
            kind,
            Some(text),
            Map::empty().insert(key_link(), url),
        ),
    }
}

/// `[` opens a link.
pub open spec fn handle_bracket(ts: Seq<Tok>, st: Doc) -> Result<Doc, Fault> {
    append_link(ts, st, st.index, KindModel::Link)
}

/// `!` before `[` opens the preview of a file. Any other `!` is text.
pub open spec fn handle_exclamation(ts: Seq<Tok>, st: Doc) -> Result<Doc, Fault> {
    if 0 <= st.index && st.index + 1 < ts.len() && ts[st.index + 1].kind
        == TokenType::BracketLeft {
        append_link(ts, st, st.index + 1, KindModel::FilePrev)
    } else {
        append_text(ts, st)
    }
}

/// Keeps the text of the front matter: the tokens after the one that opens
/// it, up to the one before the last before the token that closes it. The
/// cursor ends before the token that closes the front matter.
pub open spec fn handle_frontmatter(ts: Seq<Tok>, st: Doc) -> Result<Doc, Fault> {
    let close = first_of_kind(ts, st.index, TokenType::FrontmatterEnd);
    if close < 0 || st.index < 0 {
        Err(Fault::Peek(0))
    } else if close <= st.index + 1 {
        Ok(
            Doc {
                index: if close > st.index {
                    close - 1
                } else {
                    st.index
                },
                front_matter: Some(Seq::empty()),
                ..st
            },
        )
    } else {
        Ok(
            Doc {
                index: close - 1,
                front_matter: Some(text_between(ts, st.index + 1, close - 1)),
                ..st
            },
        )
    }
}

/// The kind of the container that a run of `*` or `_` of the length `len`
/// opens; `Text` where it opens none.
pub open spec fn container_kind(len: int) -> KindModel {
    if len == 1 {
        KindModel::Italic
    } else if len == 2 {
        KindModel::Bold
    } else if len == 3 {
        KindModel::BoldItalic
    } else {
        KindModel::Text
    }
}

/// Parses the tokens from the cursor up to `close`, each in its turn. The
/// cursor ends at `close` or after it, or on the last token of the stream.
pub open spec fn parse_span(ts: Seq<Tok>, st: Doc, close: int) -> Result<Doc, Fault>
    decreases ts.len() - st.index, 3int,
{
    if st.index >= close || st.index < 0 || st.index >= ts.len() {
        Ok(st)
    } else {
        match parse_token(ts, st) {
            Err(e) => Err(e),
            Ok(st1) => if st.index <= st1.index && st1.index + 1 < ts.len() {
                parse_span(ts, Doc { index: st1.index + 1, ..st1 }, close)
            } else {
                Ok(st1)
            },
        }
    }
}

/// A run of one, two or three `*` or `_` opens a container that a marker of
/// its kind closes on the same line; what stands between the two is parsed
/// into the container. Where nothing closes it, and for a longer run, the run
/// is text.
pub open spec fn handle_container(ts: Seq<Tok>, st: Doc, kind: TokenType) -> Result<Doc, Fault>
    decreases ts.len() - st.index, 1int,
{
    match token_at_index(ts, st.index) {
        Err(e) => Err(e),
        Ok(t) => {
            let elm_kind = container_kind(tok_len(t));
            if elm_kind is Text {
                append_text(ts, st)
            } else if st.index + 1 >= ts.len() {
                Err(Fault::Move(clip(st.index + 1)))
            } else {
                let close = first_in_line(ts, st.index + 1, kind);
                if close < 0 {
                    append_text(ts, st)
                } else {
                    match take_id(st) {
                        Err(e) => Err(e),
                        Ok((id, st1)) => {
                            let opened = append_node(st1, leaf(elm_kind, id));
                            let inner = Doc {
                                index: st.index + 1,
                                inside: opened.inside.push(id),
                                ..opened
                            };
                            match parse_span(ts, inner, close) {
                                Err(e) => Err(e),
                                Ok(st2) => Ok(
                                    Doc {
                                        inside: if st2.inside.len() > 0 {
                                            st2.inside.drop_last()
                                        } else {
                                            st2.inside
                                        },
                                        ..st2
                                    },
                                ),
                            }
                        },
                    }
                }
            }
        },
    }
}

/// Parses the token at the cursor. The cursor ends on the last token that
/// was taken in.
pub open spec fn parse_token(ts: Seq<Tok>, st: Doc) -> Result<Doc, Fault>
    decreases ts.len() - st.index, 2int,
{
    match token_at_index(ts, st.index) {
        Err(e) => Err(e),
        Ok(t) => match t.kind {
            TokenType::Text | TokenType::CurlybraceLeft | TokenType::CurlybraceRight => append_text(
                ts,
                st,
            ),
            TokenType::EndOfLine => append_leaf(st, KindModel::EndOfLine),
            TokenType::Tab => handle_tab(ts, st),
            TokenType::Whitespace => handle_whitespace(ts, st),
            TokenType::Hash => handle_hash(ts, st),
            TokenType::Percent => handle_percent(ts, st),
            TokenType::Dash => handle_dash(ts, st),
            TokenType::ListNumber => handle_num(ts, st),
            TokenType::GreaterThan => append_leaf(st, KindModel::Blockquote),
            TokenType::Asterisk => handle_container(ts, st, TokenType::Asterisk),
            TokenType::Backtick => handle_backtick(ts, st),
            TokenType::DollarSign => handle_container_text(ts, st, TokenType::DollarSign),
            TokenType::Underscore => handle_container(ts, st, TokenType::Underscore),
            TokenType::BracketLeft => handle_bracket(ts, st),
            TokenType::Exclamation => handle_exclamation(ts, st),
            TokenType::FrontmatterStart => handle_frontmatter(ts, st),
            _ => Ok(st),
        },
    }
}

/// Closes the document: the element that is still open becomes the last
/// top-level element.
pub open spec fn finish(st: Doc) -> Doc {
    match st.current {
        Some(c) => Doc { ast: st.ast.push(c), current: None, ..st },
        None => st,
    }
}

/// Parses the tokens after the cursor, up to the end of the stream.
pub open spec fn parse_from(ts: Seq<Tok>, st: Doc) -> Result<Doc, Fault>
    decreases ts.len() - st.index,
{
    if st.index < 0 || st.index + 1 >= ts.len() {
        Ok(finish(st))
    } else if ts[st.index + 1].kind == TokenType::EndOfFile {
        Ok(finish(Doc { index: st.index + 1, ..st }))
    } else {
        match parse_token(ts, Doc { index: st.index + 1, ..st }) {
            Err(e) => Err(e),
            Ok(st1) => if st.index < st1.index < ts.len() {
                parse_from(ts, st1)
            } else {
                Ok(finish(st1))
            },
        }
    }
}

} // verus!
