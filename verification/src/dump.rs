//! The document tree written out as text, for reading and for comparing.

use vstd::prelude::*;
use crate::custom::opt_text;
use crate::strmap::StrMap;
use crate::text::{chars_of, push_text, string_of};
use crate::tree::{Element, Kind};

verus! {

/// The text in quotes, as `Debug` writes a string.
pub uninterp spec fn quoted(text: Seq<char>) -> Seq<char>;

/// Writes a text in quotes, by the `Debug` form of `str`. The contract is
/// believed, not proved: it names the outcome.
#[verifier::external_body]
fn quote(text: &str) -> (r: String)
    ensures
        r@ == quoted(text@),
{
    format!("{:?}", text)
}

/// The text `a` stands before the text `b`, or is `b`: at the first place
/// where the two differ, `a` has the smaller character or has ended.
pub open spec fn before(a: Seq<char>, b: Seq<char>) -> bool
    decreases a.len(),
{
    if a.len() == 0 {
        true
    } else if b.len() == 0 {
        false
    } else if a[0] != b[0] {
        a[0] < b[0]
    } else {
        before(a.drop_first(), b.drop_first())
    }
}

/// The binding `a` stands before the binding `b`, or is `b`: by their keys,
/// and by their values where the keys are the same.
pub open spec fn pair_before(a: (Seq<char>, Seq<char>), b: (Seq<char>, Seq<char>)) -> bool {
    if a.0 == b.0 {
        before(a.1, b.1)
    } else {
        before(a.0, b.0)
    }
}

/// The bindings with `p` put in after the last binding that stands before
/// it.
pub open spec fn insert_pair(
    sorted: Seq<(Seq<char>, Seq<char>)>,
    p: (Seq<char>, Seq<char>),
) -> Seq<(Seq<char>, Seq<char>)>
    decreases sorted.len(),
{
    if sorted.len() == 0 {
        seq![p]
    } else if pair_before(sorted.last(), p) {
        sorted.push(p)
    } else {
        insert_pair(sorted.drop_last(), p).push(sorted.last())
    }
}

/// The bindings in order.
pub open spec fn sort_pairs(pairs: Seq<(Seq<char>, Seq<char>)>) -> Seq<(Seq<char>, Seq<char>)>
    decreases pairs.len(),
{
    if pairs.len() == 0 {
        Seq::empty()
    } else {
        insert_pair(sort_pairs(pairs.drop_last()), pairs.last())
    }
}

/// The first `n` bindings written out, each in brackets, with `, ` between
/// them.
pub open spec fn pairs_text(pairs: Seq<(Seq<char>, Seq<char>)>, n: int) -> Seq<char>
    decreases n,
{
    if n <= 0 || n > pairs.len() {
        Seq::empty()
    } else {
        pairs_text(pairs, n - 1) + (if n > 1 {
            ", "@
        } else {
            Seq::empty()
        }) + "("@ + quoted(pairs[n - 1].0) + ", "@ + quoted(pairs[n - 1].1) + ")"@
    }
}

/// The bindings of a map written out in order.
pub open spec fn map_text(pairs: Seq<(Seq<char>, Seq<char>)>) -> Seq<char> {
    "["@ + pairs_text(sort_pairs(pairs), pairs.len() as int) + "]"@
}

fn chars_before(a: &Vec<char>, b: &Vec<char>) -> (r: bool)
    ensures
        r == before(a@, b@),
{
    let mut i: usize = 0;
    proof {
        assert(a@.skip(0) =~= a@);
        assert(b@.skip(0) =~= b@);
    }
    while i < a.len()
        invariant
            i <= a.len(),
            i <= b.len(),
            before(a@, b@) == before(a@.skip(i as int), b@.skip(i as int)),
        decreases a.len() - i,
    {
        if i >= b.len() {
            return false;
        }
        proof {
            assert(a@.skip(i as int)[0] == a@[i as int]);
            assert(b@.skip(i as int)[0] == b@[i as int]);
            assert(a@.skip(i as int).drop_first() =~= a@.skip(i + 1));
            assert(b@.skip(i as int).drop_first() =~= b@.skip(i + 1));
        }
        if a[i] != b[i] {
            return a[i] < b[i];
        }
        i += 1;
    }
    true
}

fn stands_before(a: &(Vec<char>, Vec<char>), key: &Vec<char>, value: &Vec<char>) -> (r: bool)
    ensures
        r == pair_before((a.0@, a.1@), (key@, value@)),
{
    if crate::text::chars_equal(&a.0, key) {
        chars_before(&a.1, value)
    } else {
        chars_before(&a.0, key)
    }
}

/// A list of bindings as plain values.
pub open spec fn char_pairs(list: Seq<(Vec<char>, Vec<char>)>) -> Seq<(Seq<char>, Seq<char>)> {
    Seq::new(list.len(), |i: int| (list[i].0@, list[i].1@))
}

fn sorted_pairs(map: &StrMap) -> (r: Vec<(Vec<char>, Vec<char>)>)
    ensures
        char_pairs(r@) == sort_pairs(map.bindings()),
{
    let ghost all = map.bindings();
    let mut out: Vec<(Vec<char>, Vec<char>)> = Vec::new();
    let mut i: usize = 0;
    proof {
        assert(all.take(0) =~= Seq::empty());
        assert(char_pairs(out@) =~= Seq::empty());
    }
    while i < map.len()
        invariant
            i <= all.len(),
            all == map.bindings(),
            char_pairs(out@) == sort_pairs(all.take(i as int)),
        decreases all.len() - i,
    {
        let key = chars_of(map.key_at(i).as_str());
        let value = chars_of(map.value_at(i).as_str());
        let ghost p = (key@, value@);
        let ghost sorted = char_pairs(out@);
        proof {
            assert(all.take(i + 1).drop_last() =~= all.take(i as int));
            assert(all.take(i + 1).last() == p);
        }
        let mut j: usize = out.len();
        proof {
            assert(sorted.take(j as int) =~= sorted);
            assert(insert_pair(sorted, p) + sorted.skip(j as int) =~= insert_pair(sorted, p));
        }
        while j > 0 && !stands_before(&out[j - 1], &key, &value)
            invariant
                j <= out.len(),
                sorted == char_pairs(out@),
                p == (key@, value@),
                insert_pair(sorted, p) == insert_pair(sorted.take(j as int), p) + sorted.skip(
                    j as int,
                ),
            decreases j,
        {
            proof {
                let head = sorted.take(j as int);
                assert(head.last() == sorted[j - 1]);
                assert(head.drop_last() =~= sorted.take(j - 1));
                assert(insert_pair(sorted.take(j - 1), p).push(sorted[j - 1]) + sorted.skip(
                    j as int,
                ) =~= insert_pair(sorted.take(j - 1), p) + sorted.skip(j - 1));
            }
            j -= 1;
        }
        proof {
            let head = sorted.take(j as int);
            if j > 0 {
                assert(head.last() == sorted[j - 1]);
            }
            assert(insert_pair(head, p) =~= head.push(p));
            assert(char_pairs(out@.insert(j as int, (key, value))) =~= head.push(p) + sorted.skip(
                j as int,
            ));
        }
        out.insert(j, (key, value));
        i += 1;
    }
    proof {
        assert(all.take(all.len() as int) =~= all);
    }
    out
}

/// The bindings of a map written out in the order of their keys.
pub fn sort_hm(map: &StrMap) -> (s: String)
    ensures
        s@ == map_text(map.bindings()),
{
    let pairs = sorted_pairs(map);
    let ghost all = char_pairs(pairs@);
    let mut s = String::new();
    let mut i: usize = 0;
    proof {
        assert(s@ + Seq::<char>::empty() =~= s@);
    }
    while i < pairs.len()
        invariant
            i <= pairs.len(),
            all == char_pairs(pairs@),
            s@ == pairs_text(all, i as int),
        decreases pairs.len() - i,
    {
        let ghost was = s@;
        if i > 0 {
            push_text(&mut s, ", ");
        } else {
            proof {
                assert(s@ + Seq::<char>::empty() =~= s@);
            }
        }
        push_text(&mut s, "(");
        let key = crate::text::string_from_chars(&pairs[i].0);
        push_text(&mut s, quote(key.as_str()).as_str());
        push_text(&mut s, ", ");
        let value = crate::text::string_from_chars(&pairs[i].1);
        push_text(&mut s, quote(value.as_str()).as_str());
        push_text(&mut s, ")");
        i += 1;
    }
    let mut out = string_of("[");
    push_text(&mut out, s.as_str());
    push_text(&mut out, "]");
    proof {
        assert(pairs.len() == map.bindings().len()) by {
            lemma_sort_len(map.bindings());
        }
    }
    out
}

/// Putting a binding in makes the list one longer.
pub proof fn lemma_insert_len(sorted: Seq<(Seq<char>, Seq<char>)>, p: (Seq<char>, Seq<char>))
    ensures
        insert_pair(sorted, p).len() == sorted.len() + 1,
    decreases sorted.len(),
{
    if sorted.len() > 0 && !pair_before(sorted.last(), p) {
        lemma_insert_len(sorted.drop_last(), p);
    }
}

/// The bindings in order are as many as they were.
pub proof fn lemma_sort_len(pairs: Seq<(Seq<char>, Seq<char>)>)
    ensures
        sort_pairs(pairs).len() == pairs.len(),
    decreases pairs.len(),
{
    if pairs.len() > 0 {
        lemma_sort_len(pairs.drop_last());
        lemma_insert_len(sort_pairs(pairs.drop_last()), pairs.last());
    }
}

/// An optional text written out as `Debug` writes it.
pub open spec fn option_text(o: Option<Seq<char>>) -> Seq<char> {
    match o {
        Some(t) => "Some("@ + quoted(t) + ")"@,
        None => "None"@,
    }
}

fn write_option(o: &Option<String>) -> (s: String)
    ensures
        s@ == option_text(opt_text(*o)),
{
    match o {
        Some(t) => {
            let mut s = string_of("Some(");
            push_text(&mut s, quote(t.as_str()).as_str());
            push_text(&mut s, ")");
            s
        },
        None => string_of("None"),
    }
}

/// The name of a kind; a custom element is written out with what it holds.
pub open spec fn kind_text(kind: Kind) -> Seq<char> {
    match kind {
        Kind::Paragraph => "Paragraph"@,
        Kind::Text => "Text"@,
        Kind::Link => "Link"@,
        Kind::FilePrev => "FilePrev"@,
        Kind::Italic => "Italic"@,
        Kind::Bold => "Bold"@,
        Kind::BoldItalic => "BoldItalic"@,
        Kind::Blockquote => "Blockquote"@,
        Kind::ListItem => "ListItem"@,
        Kind::OrderedListElement => "OrderedListElement"@,
        Kind::InlineCode => "InlineCode"@,
        Kind::BlockCode => "BlockCode"@,
        Kind::InlineLaTeX => "InlineLaTeX"@,
        Kind::BlockLaTeX => "BlockLaTeX"@,
        Kind::CustomElement(c) => "Custom{Name: "@ + c.name@ + ", Body: "@ + option_text(
            opt_text(c.body),
        ) + ", Values: "@ + map_text(c.values.bindings()) + ", Template: "@ + option_text(
            opt_text(c.template),
        ) + "}"@,
        Kind::Header => "Header"@,
        Kind::HorizontalRule => "HorizontalRule"@,
        Kind::EndOfLine => "EndOfLine"@,
        Kind::LineBreak => "LineBreak"@,
    }
}

/// The name of a kind; a custom element is written out with what it holds.
pub fn format_kind(kind: &Kind) -> (s: String)
    ensures
        s@ == kind_text(*kind),
{
    match kind {
        Kind::Paragraph => string_of("Paragraph"),
        Kind::Text => string_of("Text"),
        Kind::Link => string_of("Link"),
        Kind::FilePrev => string_of("FilePrev"),
        Kind::Italic => string_of("Italic"),
        Kind::Bold => string_of("Bold"),
        Kind::BoldItalic => string_of("BoldItalic"),
        Kind::Blockquote => string_of("Blockquote"),
        Kind::ListItem => string_of("ListItem"),
        Kind::OrderedListElement => string_of("OrderedListElement"),
        Kind::InlineCode => string_of("InlineCode"),
        Kind::BlockCode => string_of("BlockCode"),
        Kind::InlineLaTeX => string_of("InlineLaTeX"),
        Kind::BlockLaTeX => string_of("BlockLaTeX"),
        Kind::CustomElement(c) => {
            let mut s = string_of("Custom{Name: ");
            push_text(&mut s, c.name.as_str());
            push_text(&mut s, ", Body: ");
            push_text(&mut s, write_option(&c.body).as_str());
            push_text(&mut s, ", Values: ");
            push_text(&mut s, sort_hm(&c.values).as_str());
            push_text(&mut s, ", Template: ");
            push_text(&mut s, write_option(&c.template).as_str());
            push_text(&mut s, "}");
            s
        },
        Kind::Header => string_of("Header"),
        Kind::HorizontalRule => string_of("HorizontalRule"),
        Kind::EndOfLine => string_of("EndOfLine"),
        Kind::LineBreak => string_of("LineBreak"),
    }
}

/// Four spaces for each level.
pub open spec fn indent(level: int) -> Seq<char>
    decreases level,
{
    if level <= 0 {
        Seq::empty()
    } else {
        indent(level - 1) + "    "@
    }
}

fn make_indent(level: usize) -> (s: String)
    ensures
        s@ == indent(level as int),
{
    let mut s = String::new();
    let mut i: usize = 0;
    while i < level
        invariant
            i <= level,
            s@ == indent(i as int),
        decreases level - i,
    {
        push_text(&mut s, "    ");
        i += 1;
    }
    s
}

/// The head of an element written out at the level `level`: its kind, its
/// text and its attributes, up to the list of its children.
pub open spec fn head_text(e: Element, level: int) -> Seq<char> {
    let ts = indent(level);
    "Element{\n"@ + ts + "    Kind: "@ + quoted(kind_text(e.kind)) + ",\n"@ + ts + "    Text: "@
        + option_text(opt_text(e.text)) + ",\n"@ + ts + "    Attrs: "@ + map_text(
        e.attrs.bindings(),
    ) + ",\n"@ + ts + "    Elements: ["@
}

/// The first `n` children of an element written out, each on a line of its
/// own.
pub open spec fn kids_text(e: Element, level: int, n: nat) -> Seq<char>
    decreases e, 0nat, n,
{
    if n == 0 || n > e.elements.len() {
        Seq::empty()
    } else {
        kids_text(e, level, (n - 1) as nat) + "\n"@ + indent(level) + indent(level) + "    "@
            + element_text(e.elements[n - 1], level + 1) + ","@
    }
}

/// An element written out at the level `level`, with all below it.
pub open spec fn element_text(e: Element, level: int) -> Seq<char>
    decreases e, 1nat, 0nat,
{
    head_text(e, level) + kids_text(e, level, e.elements.len() as nat) + "\n"@ + indent(level)
        + "    ])\n"@ + indent(level) + "}"@
}

/// An element written out at the level `level`, with all below it.
pub fn render_element(element: &Element, level: usize) -> (s: String)
    requires
        level + height(*element) <= usize::MAX,
    ensures
        s@ == element_text(*element, level as int),
    decreases element,
{
    let ts = make_indent(level);
    let mut s = string_of("Element{\n");
    push_text(&mut s, ts.as_str());
    push_text(&mut s, "    Kind: ");
    push_text(&mut s, quote(format_kind(&element.kind).as_str()).as_str());
    push_text(&mut s, ",\n");
    push_text(&mut s, ts.as_str());
    push_text(&mut s, "    Text: ");
    push_text(&mut s, write_option(&element.text).as_str());
    push_text(&mut s, ",\n");
    push_text(&mut s, ts.as_str());
    push_text(&mut s, "    Attrs: ");
    push_text(&mut s, sort_hm(&element.attrs).as_str());
    push_text(&mut s, ",\n");
    push_text(&mut s, ts.as_str());
    push_text(&mut s, "    Elements: [");
    let ghost head = s@;
    let mut i: usize = 0;
    proof {
        assert(head + Seq::<char>::empty() =~= head);
    }
    while i < element.elements.len()
        invariant
            i <= element.elements.len(),
            ts@ == indent(level as int),
            level + height(*element) <= usize::MAX,
            head == head_text(*element, level as int),
            s@ == head + kids_text(*element, level as int, i as nat),
        decreases element.elements.len() - i,
    {
        proof {
            lemma_height(*element, i as int);
        }
        let kid = render_element(&element.elements[i], level + 1);
        let ghost was = s@;
        push_text(&mut s, "\n");
        push_text(&mut s, ts.as_str());
        push_text(&mut s, ts.as_str());
        push_text(&mut s, "    ");
        push_text(&mut s, kid.as_str());
        push_text(&mut s, ",");
        proof {
            assert(s@ =~= head + kids_text(*element, level as int, (i + 1) as nat));
        }
        i += 1;
    }
    push_text(&mut s, "\n");
    push_text(&mut s, ts.as_str());
    push_text(&mut s, "    ])\n");
    push_text(&mut s, ts.as_str());
    push_text(&mut s, "}");
    s
}

/// The largest number of the first `n` children's heights.
pub open spec fn kids_height(e: Element, n: nat) -> nat
    decreases e, 0nat, n,
{
    if n == 0 || n > e.elements.len() {
        0
    } else {
        let rest = kids_height(e, (n - 1) as nat);
        let last = height(e.elements[n - 1]);
        if last > rest {
            last
        } else {
            rest
        }
    }
}

/// How many levels an element has below it, itself counted.
pub open spec fn height(e: Element) -> nat
    decreases e, 1nat, 0nat,
{
    1 + kids_height(e, e.elements.len() as nat)
}

/// A child is lower than its parent.
pub proof fn lemma_height(e: Element, i: int)
    requires
        0 <= i < e.elements.len(),
    ensures
        height(e.elements[i]) < height(e),
{
    lemma_kids_height(e, e.elements.len() as nat, i);
}

proof fn lemma_kids_height(e: Element, n: nat, i: int)
    requires
        0 <= i < n <= e.elements.len(),
    ensures
        height(e.elements[i]) <= kids_height(e, n),
    decreases n,
{
    if i < n - 1 {
        lemma_kids_height(e, (n - 1) as nat, i);
    }
}

} // verus!
