//! Laws of the parser: the ids of a parsed document, and markers that
//! nothing closes.

use vstd::prelude::*;
use crate::parse_model::{
    append_leaf, append_node, append_text, append_with, container_kind, first_in_line,
    handle_backtick, handle_bracket, handle_container, handle_container_text, handle_dash,
    handle_exclamation, handle_frontmatter, handle_hash, handle_num, handle_percent, id_at,
    key_level, link_at, make_custom, parse_from, parse_span, parse_token, take_id, text_node,
    tok_len, token_at_index, Doc, Fault, finish,
};
use crate::text::decimal;
use crate::token::{Tok, TokenType};
use crate::tree::{count_id, leaf, unique_ids, KindModel, Node};
use crate::tree_laws::{lemma_count_one, lemma_count_push, lemma_count_push_at};

verus! {

/// How often the id `id` occurs in the document: in the elements that are
/// complete and in the element that is open.
pub open spec fn count_doc(st: Doc, id: u32) -> nat {
    count_id(st.ast, id) + (match st.current {
        Some(c) => count_id(seq![c], id),
        None => 0,
    })
}

/// The id `id` was given out.
pub open spec fn issued_id(st: Doc, id: u32) -> bool {
    exists|k: int| 0 <= k < st.issued && id == #[trigger] id_at(st.seed, k)
}

/// No id occurs twice in the document, and every id that occurs was given
/// out.
pub open spec fn sound(st: Doc) -> bool {
    &&& 0 <= st.issued <= u32::MAX
    &&& forall|id: u32|
        #![trigger count_doc(st, id)]
        count_doc(st, id) <= 1 && (count_doc(st, id) >= 1 ==> issued_id(st, id))
}

/// The ids of the node `n` are new to the document and were given out.
pub open spec fn fits(st: Doc, n: Node) -> bool {
    forall|id: u32|
        #![trigger count_id(seq![n], id)]
        count_id(seq![n], id) + count_doc(st, id) <= 1 && (count_id(seq![n], id) >= 1
            ==> issued_id(st, id))
}

/// Two ids that a parser gives out are different.
pub proof fn lemma_ids_differ(seed: u32, j: int, k: int)
    requires
        0 <= j < k < 0x1_0000_0000,
    ensures
        id_at(seed, j) != id_at(seed, k),
{
}

/// Adding a node adds its ids to the document.
pub proof fn lemma_append_counts(st: Doc, n: Node, id: u32)
    ensures
        count_doc(append_node(st, n), id) == count_doc(st, id) + count_id(seq![n], id),
{
    if n.kind is EndOfLine {
        match st.current {
            Some(c) => {
                lemma_count_push(st.ast, c, id);
                lemma_count_push(st.ast.push(c), n, id);
            },
            None => {
                lemma_count_push(st.ast, n, id);
            },
        }
    } else {
        match st.current {
            Some(c) => {
                lemma_count_push_at(c, st.inside, n, id);
            },
            None => {},
        }
    }
}

/// A document stays sound where a node with new ids is added.
pub proof fn lemma_append_sound(st: Doc, n: Node)
    requires
        sound(st),
        fits(st, n),
    ensures
        sound(append_node(st, n)),
        append_node(st, n).issued == st.issued,
        append_node(st, n).seed == st.seed,
{
    let d = append_node(st, n);
    assert forall|id: u32| #![trigger count_doc(d, id)] count_doc(d, id) <= 1 && (count_doc(d, id)
        >= 1 ==> issued_id(d, id)) by {
        lemma_append_counts(st, n, id);
        assert(count_id(seq![n], id) + count_doc(st, id) <= 1);
        if count_doc(d, id) >= 1 {
            if count_doc(st, id) >= 1 {
                assert(issued_id(st, id));
            } else {
                assert(count_id(seq![n], id) >= 1);
                assert(issued_id(st, id));
            }
            let k = choose|k: int| 0 <= k < st.issued && id == #[trigger] id_at(st.seed, k);
            assert(0 <= k < d.issued && id == id_at(d.seed, k));
        }
    }
}

/// The id that is given out is new to the document.
pub proof fn lemma_take_id(st: Doc)
    requires
        sound(st),
    ensures
        match take_id(st) {
            Ok((id, st1)) => sound(st1) && count_doc(st1, id) == 0 && issued_id(st1, id)
                && st1.issued == st.issued + 1 && id == id_at(st.seed, st.issued) && st1.ast
                == st.ast && st1.current == st.current && st1.seed == st.seed,
            Err(_) => true,
        },
{
    if st.issued < u32::MAX {
        let id = id_at(st.seed, st.issued);
        let st1 = Doc { issued: st.issued + 1, ..st };
        assert(0 <= st.issued < st1.issued && id == id_at(st1.seed, st.issued));
        if count_doc(st, id) >= 1 {
            assert(issued_id(st, id));
            let k = choose|k: int| 0 <= k < st.issued && id == #[trigger] id_at(st.seed, k);
            lemma_ids_differ(st.seed, k, st.issued);
        }
        assert forall|x: u32| #![trigger count_doc(st1, x)] count_doc(st1, x) <= 1 && (count_doc(
            st1,
            x,
        ) >= 1 ==> issued_id(st1, x)) by {
            assert(count_doc(st1, x) == count_doc(st, x));
            if count_doc(st, x) >= 1 {
                assert(issued_id(st, x));
                let k = choose|k: int| 0 <= k < st.issued && x == #[trigger] id_at(st.seed, k);
                assert(0 <= k < st1.issued && x == id_at(st1.seed, k));
            }
        }
    }
}

/// A node without children whose id is new fits the document.
pub proof fn lemma_single_fits(st: Doc, n: Node)
    requires
        sound(st),
        n.children.len() == 0,
        count_doc(st, n.id) == 0,
        issued_id(st, n.id),
    ensures
        fits(st, n),
{
    assert forall|id: u32| #![trigger count_id(seq![n], id)] count_id(seq![n], id) + count_doc(
        st,
        id,
    ) <= 1 && (count_id(seq![n], id) >= 1 ==> issued_id(st, id)) by {
        lemma_count_one(n, id);
        assert(count_id(n.children, id) == 0);
    }
}

/// Adding a new element without children keeps the document sound.
pub proof fn lemma_append_with_sound(
    st: Doc,
    kind: KindModel,
    text: Option<Seq<char>>,
    attrs: Map<Seq<char>, Seq<char>>,
)
    requires
        sound(st),
    ensures
        match append_with(st, kind, text, attrs) {
            Ok(d) => sound(d),
            Err(_) => true,
        },
        match append_leaf(st, kind) {
            Ok(d) => sound(d),
            Err(_) => true,
        },
{
    lemma_take_id(st);
    match take_id(st) {
        Ok((id, st1)) => {
            let n = Node { text, attrs, ..leaf(kind, id) };
            lemma_single_fits(st1, n);
            lemma_append_sound(st1, n);
            lemma_single_fits(st1, leaf(kind, id));
            lemma_append_sound(st1, leaf(kind, id));
        },
        Err(_) => {},
    }
}

/// Adding a text keeps the document sound.
pub proof fn lemma_append_text_sound(ts: Seq<Tok>, st: Doc)
    requires
        sound(st),
    ensures
        match append_text(ts, st) {
            Ok(d) => sound(d),
            Err(_) => true,
        },
{
    match token_at_index(ts, st.index) {
        Err(_) => {},
        Ok(t) => {
            lemma_take_id(st);
            if st.new_line {
                match take_id(st) {
                    Err(_) => {},
                    Ok((outer, st1)) => {
                        lemma_take_id(st1);
                        match take_id(st1) {
                            Err(_) => {},
                            Ok((inner, st2)) => {
                                let kid = text_node(KindModel::Text, t.text, inner);
                                let n = Node {
                                    children: seq![kid],
                                    ..leaf(KindModel::Paragraph, outer)
                                };
                                lemma_ids_differ(st.seed, st.issued, st.issued + 1);
                                assert forall|id: u32|
                                    #![trigger count_id(seq![n], id)]
                                    count_id(seq![n], id) + count_doc(st2, id) <= 1 && (count_id(
                                        seq![n],
                                        id,
                                    ) >= 1 ==> issued_id(st2, id)) by {
                                    lemma_count_one(n, id);
                                    lemma_count_one(kid, id);
                                    assert(count_id(kid.children, id) == 0);
                                    assert(count_doc(st2, outer) == count_doc(st1, outer));
                                    if id == outer {
                                        assert(0 <= st.issued < st2.issued && id == id_at(
                                            st2.seed,
                                            st.issued,
                                        ));
                                    }
                                }
                                lemma_append_sound(st2, n);
                            },
                        }
                    },
                }
            } else {
                match take_id(st) {
                    Err(_) => {},
                    Ok((id, st1)) => {
                        let n = text_node(KindModel::Text, t.text, id);
                        lemma_single_fits(st1, n);
                        lemma_append_sound(st1, n);
                    },
                }
            }
        },
    }
}

/// A document that differs from a sound one in the cursor and the state of
/// the line only is sound.
pub proof fn lemma_same_tree_sound(a: Doc, b: Doc)
    requires
        sound(a),
        a.ast == b.ast,
        a.current == b.current,
        a.seed == b.seed,
        a.issued == b.issued,
    ensures
        sound(b),
{
    assert forall|id: u32| #![trigger count_doc(b, id)] count_doc(b, id) <= 1 && (count_doc(b, id)
        >= 1 ==> issued_id(b, id)) by {
        assert(count_doc(b, id) == count_doc(a, id));
        if count_doc(a, id) >= 1 {
            assert(issued_id(a, id));
            let k = choose|k: int| 0 <= k < a.issued && id == #[trigger] id_at(a.seed, k);
            assert(0 <= k < b.issued && id == id_at(b.seed, k));
        }
    }
}

/// Parsing the tokens of a span keeps the document sound.
pub proof fn lemma_parse_span_sound(ts: Seq<Tok>, st: Doc, close: int)
    requires
        sound(st),
    ensures
        match parse_span(ts, st, close) {
            Ok(d) => sound(d),
            Err(_) => true,
        },
    decreases ts.len() - st.index, 3int,
{
    if !(st.index >= close || st.index < 0 || st.index >= ts.len()) {
        lemma_parse_token_sound(ts, st);
        match parse_token(ts, st) {
            Err(_) => {},
            Ok(st1) => {
                if st.index <= st1.index && st1.index + 1 < ts.len() {
                    let st2 = Doc { index: st1.index + 1, ..st1 };
                    lemma_same_tree_sound(st1, st2);
                    lemma_parse_span_sound(ts, st2, close);
                }
            },
        }
    }
}

/// A container keeps the document sound.
pub proof fn lemma_container_sound(ts: Seq<Tok>, st: Doc, kind: TokenType)
    requires
        sound(st),
    ensures
        match handle_container(ts, st, kind) {
            Ok(d) => sound(d),
            Err(_) => true,
        },
    decreases ts.len() - st.index, 1int,
{
    lemma_append_text_sound(ts, st);
    match token_at_index(ts, st.index) {
        Err(_) => {},
        Ok(t) => {
            let elm_kind = container_kind(tok_len(t));
            if !(elm_kind is Text) && st.index + 1 < ts.len() {
                let close = first_in_line(ts, st.index + 1, kind);
                if close >= 0 {
                    lemma_take_id(st);
                    match take_id(st) {
                        Err(_) => {},
                        Ok((id, st1)) => {
                            lemma_single_fits(st1, leaf(elm_kind, id));
                            lemma_append_sound(st1, leaf(elm_kind, id));
                            let opened = append_node(st1, leaf(elm_kind, id));
                            let inner = Doc {
                                index: st.index + 1,
                                inside: opened.inside.push(id),
                                ..opened
                            };
                            lemma_same_tree_sound(opened, inner);
                            lemma_parse_span_sound(ts, inner, close);
                            match parse_span(ts, inner, close) {
                                Err(_) => {},
                                Ok(st2) => {
                                    let closed = Doc {
                                        inside: if st2.inside.len() > 0 {
                                            st2.inside.drop_last()
                                        } else {
                                            st2.inside
                                        },
                                        ..st2
                                    };
                                    lemma_same_tree_sound(st2, closed);
                                },
                            }
                        },
                    }
                }
            }
        },
    }
}

/// A container whose inside is text, a link, and a custom element keep the
/// document sound.
pub proof fn lemma_flat_sound(ts: Seq<Tok>, st: Doc)
    requires
        sound(st),
    ensures
        match handle_container_text(ts, st, TokenType::DollarSign) {
            Ok(d) => sound(d),
            Err(_) => true,
        },
        match handle_backtick(ts, st) {
            Ok(d) => sound(d),
            Err(_) => true,
        },
        match handle_bracket(ts, st) {
            Ok(d) => sound(d),
            Err(_) => true,
        },
        match handle_exclamation(ts, st) {
            Ok(d) => sound(d),
            Err(_) => true,
        },
        match handle_percent(ts, st) {
            Ok(d) => sound(d),
            Err(_) => true,
        },
{
    lemma_append_text_sound(ts, st);
    lemma_moved_sound(st);
    match make_custom(ts, st) {
        Err(_) => {},
        Ok((c, st1)) => {
            lemma_same_tree_sound(st, st1);
            lemma_append_with_sound(st1, KindModel::CustomElement(c), None, Map::empty());
            match take_id(st1) {
                Err(_) => {},
                Ok((id, st2)) => {
                    let d = append_node(st2, leaf(KindModel::CustomElement(c), id));
                    lemma_take_id(st1);
                    lemma_single_fits(st2, leaf(KindModel::CustomElement(c), id));
                    lemma_append_sound(st2, leaf(KindModel::CustomElement(c), id));
                    lemma_same_tree_sound(d, Doc { has_custom: true, ..d });
                },
            }
        },
    }
}

/// The outcome is a failure or a sound document.
pub open spec fn ok_sound(r: Result<Doc, Fault>) -> bool {
    match r {
        Ok(d) => sound(d),
        Err(_) => true,
    }
}

/// Adding a new element after the cursor has moved keeps the document
/// sound.
pub proof fn lemma_moved_sound(st: Doc)
    requires
        sound(st),
    ensures
        forall|
            at: int,
            kind: KindModel,
            text: Option<Seq<char>>,
            attrs: Map<Seq<char>, Seq<char>>,
        |
            ok_sound(#[trigger] append_with(Doc { index: at, ..st }, kind, text, attrs)),
{
    assert forall|at: int, kind: KindModel, text: Option<Seq<char>>, attrs: Map<Seq<char>, Seq<char>>|
        ok_sound(#[trigger] append_with(Doc { index: at, ..st }, kind, text, attrs)) by {
        lemma_same_tree_sound(st, Doc { index: at, ..st });
        lemma_append_with_sound(Doc { index: at, ..st }, kind, text, attrs);
    }
}

/// Parsing a token keeps the document sound.
pub proof fn lemma_parse_token_sound(ts: Seq<Tok>, st: Doc)
    requires
        sound(st),
    ensures
        match parse_token(ts, st) {
            Ok(d) => sound(d),
            Err(_) => true,
        },
    decreases ts.len() - st.index, 2int,
{
    match token_at_index(ts, st.index) {
        Err(_) => {},
        Ok(t) => {
            lemma_append_text_sound(ts, st);
            lemma_flat_sound(ts, st);
            lemma_moved_sound(st);
            lemma_append_with_sound(st, KindModel::EndOfLine, None, Map::empty());
            lemma_append_with_sound(st, KindModel::Blockquote, None, Map::empty());
            lemma_append_with_sound(st, KindModel::HorizontalRule, None, Map::empty());
            lemma_append_with_sound(
                st,
                KindModel::Header,
                None,
                Map::empty().insert(key_level(), decimal(tok_len(t) as nat)),
            );
            match t.kind {
                TokenType::Asterisk => {
                    lemma_container_sound(ts, st, TokenType::Asterisk);
                },
                TokenType::Underscore => {
                    lemma_container_sound(ts, st, TokenType::Underscore);
                },
                TokenType::Tab => {
                    lemma_same_tree_sound(st, Doc { indent_level: tok_len(t), ..st });
                },
                TokenType::Whitespace => {
                    lemma_same_tree_sound(st, Doc { indent_level: tok_len(t) / 4, ..st });
                },
                TokenType::Dash => {
                    lemma_dash_num_sound(ts, st);
                },
                TokenType::ListNumber => {
                    lemma_dash_num_sound(ts, st);
                },
                TokenType::FrontmatterStart => {
                    match handle_frontmatter(ts, st) {
                        Ok(d) => {
                            lemma_same_tree_sound(st, d);
                        },
                        Err(_) => {},
                    }
                },
                _ => {},
            }
        },
    }
}

/// A list item keeps the document sound.
pub proof fn lemma_dash_num_sound(ts: Seq<Tok>, st: Doc)
    requires
        sound(st),
    ensures
        match handle_dash(ts, st) {
            Ok(d) => sound(d),
            Err(_) => true,
        },
        match handle_num(ts, st) {
            Ok(d) => sound(d),
            Err(_) => true,
        },
{
    lemma_append_text_sound(ts, st);
    lemma_moved_sound(st);
    lemma_append_with_sound(st, KindModel::HorizontalRule, None, Map::empty());
    assert(st == Doc { index: st.index, ..st });
}

/// Closing the document keeps it sound.
pub proof fn lemma_finish_sound(st: Doc)
    requires
        sound(st),
    ensures
        sound(finish(st)),
        unique_ids(finish(st).ast),
{
    let d = finish(st);
    assert forall|id: u32| #![trigger count_doc(d, id)] count_doc(d, id) == count_doc(st, id) by {
        match st.current {
            Some(c) => {
                lemma_count_push(st.ast, c, id);
            },
            None => {},
        }
    }
    assert forall|id: u32| #![trigger count_doc(d, id)] count_doc(d, id) <= 1 && (count_doc(d, id)
        >= 1 ==> issued_id(d, id)) by {
        assert(count_doc(d, id) == count_doc(st, id));
        if count_doc(st, id) >= 1 {
            assert(issued_id(st, id));
            let k = choose|k: int| 0 <= k < st.issued && id == #[trigger] id_at(st.seed, k);
            assert(0 <= k < d.issued && id == id_at(d.seed, k));
        }
    }
    assert forall|id: u32| count_id(d.ast, id) <= 1 by {
        assert(count_doc(d, id) <= 1);
    }
}

/// Parsing keeps a sound document sound, and no id occurs twice in the tree
/// of the document that it makes.
pub proof fn lemma_parse_sound(ts: Seq<Tok>, st: Doc)
    requires
        sound(st),
    ensures
        match parse_from(ts, st) {
            Ok(d) => sound(d) && unique_ids(d.ast),
            Err(_) => true,
        },
    decreases ts.len() - st.index,
{
    if st.index < 0 || st.index + 1 >= ts.len() {
        lemma_finish_sound(st);
    } else {
        let at = Doc { index: st.index + 1, ..st };
        lemma_same_tree_sound(st, at);
        if ts[st.index + 1].kind == TokenType::EndOfFile {
            lemma_finish_sound(at);
        } else {
            lemma_parse_token_sound(ts, at);
            match parse_token(ts, at) {
                Err(_) => {},
                Ok(st1) => {
                    if st.index < st1.index < ts.len() {
                        lemma_parse_sound(ts, st1);
                    } else {
                        lemma_finish_sound(st1);
                    }
                },
            }
        }
    }
}

/// Unique ids: in the tree of a parsed document no two elements have the
/// same id.
pub proof fn lemma_parsed_ids_unique(ts: Seq<Tok>, seed: u32)
    ensures
        match parse_from(ts, crate::parser::Parser::initial_doc(seed)) {
            Ok(d) => unique_ids(d.ast) && sound(d),
            Err(_) => true,
        },
{
    let st = crate::parser::Parser::initial_doc(seed);
    assert forall|id: u32| #![trigger count_doc(st, id)] count_doc(st, id) == 0 by {}
    lemma_parse_sound(ts, st);
}

} // verus!

verus! {

/// Where nothing closes a run of `*` or `_` on its line, the run is text.
pub proof fn lemma_unclosed_container_is_text(ts: Seq<Tok>, st: Doc, kind: TokenType)
    requires
        0 <= st.index,
        st.index + 1 < ts.len(),
        first_in_line(ts, st.index + 1, kind) < 0,
    ensures
        handle_container(ts, st, kind) == append_text(ts, st),
        handle_container_text(ts, st, kind) == append_text(ts, st),
{
}

/// Where the tokens after a `[` are no link, the `[` is text; and so is a
/// `!` that no link follows.
pub proof fn lemma_unclosed_link_is_text(ts: Seq<Tok>, st: Doc)
    requires
        0 <= st.index < ts.len(),
    ensures
        link_at(ts, st.index) is None ==> handle_bracket(ts, st) == append_text(ts, st),
        link_at(ts, st.index + 1) is None ==> handle_exclamation(ts, st) == append_text(ts, st),
{
}

/// A token stream in which nothing but a lack of ids can make the parser
/// fail: it ends with the closing sentinel, and it holds no `%`, no run of
/// three backticks and no front matter.
pub open spec fn inline_only(ts: Seq<Tok>) -> bool {
    &&& ts.len() > 0
    &&& ts.last().kind == TokenType::EndOfFile
    &&& forall|i: int|
        0 <= i < ts.len() ==> (#[trigger] ts[i]).kind != TokenType::Percent && ts[i].kind
            != TokenType::FrontmatterStart && !(ts[i].kind == TokenType::Backtick && tok_len(
            ts[i],
        ) == 3)
}

/// The ids that the parser may still need: two for each token from the
/// cursor on, beside those that it has given out.
pub open spec fn need(ts: Seq<Tok>, st: Doc) -> int {
    st.issued + 2 * (ts.len() - st.index)
}

/// The outcome is a document whose cursor did not move back and stands in
/// the stream, and the tokens that were taken in took at most two ids each.
pub open spec fn went_on(ts: Seq<Tok>, st: Doc, r: Result<Doc, Fault>) -> bool {
    match r {
        Ok(d) => st.index <= d.index < ts.len() && 0 <= d.issued && need(ts, d) - 2 <= need(
            ts,
            st,
        ),
        Err(_) => false,
    }
}

proof fn lemma_text_goes_on(ts: Seq<Tok>, st: Doc)
    requires
        0 <= st.index < ts.len(),
        0 <= st.issued,
        need(ts, st) <= u32::MAX,
    ensures
        went_on(ts, st, append_text(ts, st)),
        forall|at: int, kind: KindModel, text: Option<Seq<char>>, attrs: Map<Seq<char>, Seq<char>>|
            st.index <= at < ts.len() ==> went_on(
                ts,
                st,
                #[trigger] append_with(Doc { index: at, ..st }, kind, text, attrs),
            ),
        forall|kind: KindModel| went_on(ts, st, #[trigger] append_leaf(st, kind)),
{
    assert(st == Doc { index: st.index, ..st });
}

proof fn lemma_span_goes_on(ts: Seq<Tok>, st: Doc, close: int)
    requires
        inline_only(ts),
        0 <= st.index < ts.len(),
        0 <= st.issued,
        need(ts, st) <= u32::MAX,
    ensures
        went_on(ts, st, parse_span(ts, st, close)),
    decreases ts.len() - st.index, 3int,
{
    if !(st.index >= close) {
        lemma_token_goes_on(ts, st);
        match parse_token(ts, st) {
            Err(_) => {},
            Ok(st1) => {
                if st.index <= st1.index && st1.index + 1 < ts.len() {
                    lemma_span_goes_on(ts, Doc { index: st1.index + 1, ..st1 }, close);
                }
            },
        }
    }
}

proof fn lemma_container_goes_on(ts: Seq<Tok>, st: Doc, kind: TokenType)
    requires
        inline_only(ts),
        0 <= st.index < ts.len() - 1,
        0 <= st.issued,
        need(ts, st) <= u32::MAX,
    ensures
        went_on(ts, st, handle_container(ts, st, kind)),
    decreases ts.len() - st.index, 1int,
{
    lemma_text_goes_on(ts, st);
    let t = ts[st.index];
    let elm_kind = container_kind(tok_len(t));
    if !(elm_kind is Text) {
        let close = first_in_line(ts, st.index + 1, kind);
        if close >= 0 {
            match take_id(st) {
                Err(_) => {},
                Ok((id, st1)) => {
                    let opened = append_node(st1, leaf(elm_kind, id));
                    let inner = Doc {
                        index: st.index + 1,
                        inside: opened.inside.push(id),
                        ..opened
                    };
                    lemma_span_goes_on(ts, inner, close);
                },
            }
        }
    }
}

proof fn lemma_first_in_line(ts: Seq<Tok>, from: int, kind: TokenType)
    ensures
        first_in_line(ts, from, kind) < 0 || from <= first_in_line(ts, from, kind) < ts.len(),
    decreases ts.len() - from,
{
    if 0 <= from < ts.len() && ts[from].kind != TokenType::EndOfLine && ts[from].kind != kind {
        lemma_first_in_line(ts, from + 1, kind);
    }
}

proof fn lemma_token_goes_on(ts: Seq<Tok>, st: Doc)
    requires
        inline_only(ts),
        0 <= st.index < ts.len(),
        0 <= st.issued,
        need(ts, st) <= u32::MAX,
    ensures
        went_on(ts, st, parse_token(ts, st)),
    decreases ts.len() - st.index, 2int,
{
    let t = ts[st.index];
    lemma_text_goes_on(ts, st);
    if st.index < ts.len() - 1 {
        match t.kind {
            TokenType::Asterisk => {
                lemma_container_goes_on(ts, st, TokenType::Asterisk);
            },
            TokenType::Underscore => {
                lemma_container_goes_on(ts, st, TokenType::Underscore);
            },
            TokenType::DollarSign => {
                lemma_first_in_line(ts, st.index + 1, TokenType::DollarSign);
            },
            TokenType::Backtick => {
                lemma_first_in_line(ts, st.index + 1, TokenType::Backtick);
            },
            TokenType::BracketLeft => {
                lemma_link_goes_on(ts, st.index);
            },
            TokenType::Exclamation => {
                lemma_link_goes_on(ts, st.index + 1);
            },
            _ => {},
        }
    }
}

proof fn lemma_link_goes_on(ts: Seq<Tok>, open: int)
    requires
        0 <= open,
    ensures
        match link_at(ts, open) {
            Some((_, _, end)) => open < end < ts.len(),
            None => true,
        },
{
    lemma_first_in_line(ts, open + 1, TokenType::BracketRight);
    let close = first_in_line(ts, open + 1, TokenType::BracketRight);
    if close >= 0 {
        lemma_first_in_line(ts, close + 2, TokenType::ParenthesisRight);
    }
}

/// Markup that nothing closes never makes the parser fail: a token stream
/// that ends with the closing sentinel and holds no `%`, no run of three
/// backticks and no front matter is parsed into a document, as long as two
/// ids are left for each of its tokens.
pub proof fn lemma_inline_markup_never_fails(ts: Seq<Tok>, st: Doc)
    requires
        inline_only(ts),
        0 <= st.index,
        0 <= st.issued,
        st.index < ts.len() ==> need(ts, st) <= u32::MAX,
    ensures
        parse_from(ts, st) is Ok,
    decreases ts.len() - st.index,
{
    if !(st.index + 1 >= ts.len()) && ts[st.index + 1].kind != TokenType::EndOfFile {
        let at = Doc { index: st.index + 1, ..st };
        lemma_token_goes_on(ts, at);
        match parse_token(ts, at) {
            Err(_) => {},
            Ok(st1) => {
                if st.index < st1.index < ts.len() {
                    lemma_inline_markup_never_fails(ts, st1);
                }
            },
        }
    }
}

} // verus!

verus! {

/// Header level: a run of `#` of any length is a header whose level is the
/// length of the run, written in decimal. No level is too high.
pub proof fn lemma_header_level(ts: Seq<Tok>, st: Doc)
    requires
        0 <= st.index < ts.len(),
        0 <= st.issued < u32::MAX,
        st.current is None,
    ensures
        handle_hash(ts, st) matches Ok(d) && (d.current matches Some(h) && h.kind is Header
            && h.attrs == Map::<Seq<char>, Seq<char>>::empty().insert(
            key_level(),
            decimal(tok_len(ts[st.index]) as nat),
        ) && h.children.len() == 0 && d.ast == st.ast),
{
}

} // verus!
