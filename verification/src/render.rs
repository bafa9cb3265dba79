//! The renderer: the HTML of a document tree.

use vstd::prelude::*;
use crate::custom::opt_text;
use crate::frontmatter::{map_bindings, merged_bindings, FrontMatter};
use crate::markup::{
    escape_text, escaped, highlight_as, highlight_plain, highlighted_as, highlighted_plain,
    latex_display, latex_inline, lowercased, regex_first_group, regex_group, regex_is_match,
    regex_matches, regex_replace, regex_replace_all, regex_replaced, regex_replaced_all,
    render_latex_display, render_latex_inline, to_lowercase, trim, trimmed,
};
use crate::parser::Parser;
use crate::plugins::parse_int;
use crate::resolve_model::{int_of, or_empty};
use crate::strmap::{bind, StrMap};
use crate::text::{chars_of, push_char, push_chars, push_range, push_text, string_of};
use crate::tree::{Element, Kind};

verus! {

/// Why code cannot be highlighted.
#[derive(Debug)]
pub enum HighlightError {
    Internal(syntect::Error),
    NoTheme,
}

/// The regular expression of an address on the web.
pub open spec fn url_check() -> Seq<char> {
    "^(http(s)://.)?[-a-zA-Z0-9@:%._\\+~#=]{2,256}\\.[a-z]{2,6}\\b([-a-zA-Z0-9@:%_\\+.~#?&//=]*)$"@
}

/// The regular expression of the name of a picture.
pub open spec fn picture_check() -> Seq<char> {
    "^.+\\.(png|jpeg|apng|avif|gif|jpg|jfif|pjpeg|pjp|svg|webp)$"@
}

/// The regular expression of the name of a video.
pub open spec fn video_check() -> Seq<char> {
    "^.+\\.(webm|mp4)$"@
}

/// The theme in whose colors code is highlighted.
pub open spec fn code_theme() -> Seq<char> {
    "base16-mocha.dark"@
}

/// What rendering gives: the HTML, and the files that it refers to.
pub struct Page {
    pub html: Seq<char>,
    pub assets: Seq<Seq<char>>,
}

/// What rendering gives: the HTML, and the files that it refers to.
#[derive(Debug)]
pub struct Rendered {
    pub html: String,
    pub assets: Vec<String>,
}

/// A list of texts as plain values.
pub open spec fn texts_of(list: Seq<String>) -> Seq<Seq<char>> {
    Seq::new(list.len(), |i: int| list[i]@)
}

impl Rendered {
    /// The outcome as plain values.
    pub open spec fn page(&self) -> Page {
        Page { html: self.html@, assets: texts_of(self.assets@) }
    }
}

/// An optional outcome as plain values.
pub open spec fn opt_page(r: Option<Rendered>) -> Option<Page> {
    match r {
        Some(p) => Some(p.page()),
        None => None,
    }
}

/// The opening and the closing of the link to `url` with the text `text`. A
/// link to an address on the web opens in a new tab.
pub open spec fn link_html(url: Seq<char>, text: Seq<char>) -> Option<(Seq<char>, Seq<char>)> {
    match regex_matches(url_check(), url) {
        None => None,
        Some(true) => Some(("<a href=\""@ + url + "\" target=\"_blank\">"@ + text, "</a>"@)),
        Some(false) => Some(("<a href=\""@ + url + "\">"@ + text, "</a>"@)),
    }
}

/// The HTML that shows the file at `url`, and the file where it is one of
/// the site: a picture or a video. Any other file shows nothing.
pub open spec fn file_html(url: Seq<char>, text: Seq<char>) -> Option<
    (Seq<char>, Option<Seq<char>>),
> {
    let image = "<img src=\""@ + url + "\" alt=\""@ + text + "\">"@;
    match regex_matches(url_check(), url) {
        None => None,
        Some(true) => Some((image, None)),
        Some(false) => match regex_matches(picture_check(), url) {
            None => None,
            Some(true) => Some((image, Some(url))),
            Some(false) => match regex_matches(video_check(), url) {
                None => None,
                Some(true) => match regex_first_group(video_check(), url) {
                    Some(format) => Some(
                        (
                            "<source src=\""@ + url + "\" type=\"video/"@ + format + "\">"@,
                            Some(url),
                        ),
                    ),
                    None => None,
                },
                Some(false) => Some((Seq::empty(), None)),
            },
        },
    }
}

/// The index of the first line break from `from` on, or the length.
pub open spec fn first_break(s: Seq<char>, from: int) -> int
    decreases s.len() - from,
{
    if from < 0 || from >= s.len() {
        s.len() as int
    } else if s[from] == '\n' {
        from
    } else {
        first_break(s, from + 1)
    }
}

/// The text without its first line break.
pub open spec fn without_first_break(s: Seq<char>) -> Seq<char> {
    let at = first_break(s, 0);
    if at < s.len() {
        s.take(at) + s.skip(at + 1)
    } else {
        s
    }
}

/// The HTML of `code` highlighted as the language `lang`, or as plain text
/// where `lang` names no syntax; the first line break of the code is left
/// out.
pub open spec fn highlight_of(lang: Seq<char>, code: Seq<char>) -> Option<Seq<char>> {
    let c = without_first_break(code);
    match highlighted_as(lang, c, code_theme()) {
        Some(h) => h,
        None => match highlighted_plain(c, code_theme()) {
            Some(h) => h,
            None => None,
        },
    }
}

/// The level of a header as it is shown: a level above six is six.
pub open spec fn shown_level(num: Seq<char>) -> Seq<char> {
    match int_of(num) {
        Some(v) => if 6 < v <= 127 {
            "6"@
        } else {
            num
        },
        None => num,
    }
}

/// The name of the anchor of a header: its text, trimmed and escaped, with
/// each run of white space made a `-`, in lower case.
pub open spec fn anchor_of(inside: Seq<char>) -> Option<Seq<char>> {
    match regex_replaced_all("\\s+"@, escaped(trimmed(inside)), "-"@) {
        Some(t) => Some(lowercased(t)),
        None => None,
    }
}

/// The level that a text names: a number that is not negative.
pub open spec fn level_of(s: Seq<char>) -> Option<int> {
    match int_of(s) {
        Some(v) => if v >= 0 && s[0] != '-' {
            Some(v)
        } else {
            None
        },
        None => None,
    }
}

/// `n` tabs.
pub open spec fn tabs(n: int) -> Seq<char> {
    Seq::new(
        if n >= 0 {
            n as nat
        } else {
            0
        },
        |i: int| '\t',
    )
}

/// The value of the attribute `key`, or `d` where the element has none.
pub open spec fn attr_or(e: Element, key: Seq<char>, d: Seq<char>) -> Seq<char> {
    if e.attrs@.contains_key(key) {
        e.attrs@[key]
    } else {
        d
    }
}

/// The template with `{elements}`, `{body}` and the keys of `values` in
/// braces replaced, each at its first place, in any case of its letters.
pub open spec fn template_text(
    template: Seq<char>,
    values: Seq<(Seq<char>, Seq<char>)>,
    body: Option<Seq<char>>,
    elements: Seq<char>,
) -> Option<Seq<char>> {
    match regex_replaced("\\{(?i)elements\\}"@, template, elements) {
        None => None,
        Some(a) => match regex_replaced("\\{(?i)body\\}"@, a, or_empty(body)) {
            None => None,
            Some(b) => with_values(b, values, values.len() as int),
        },
    }
}

/// The regular expression of the key `key` in braces.
pub open spec fn key_pattern(key: Seq<char>) -> Seq<char> {
    "\\{(?i)"@ + key + "\\}"@
}

/// The text with the first `n` keys of `values` replaced by their values.
pub open spec fn with_values(text: Seq<char>, values: Seq<(Seq<char>, Seq<char>)>, n: int) -> Option<
    Seq<char>,
>
    decreases n,
{
    if n <= 0 || n > values.len() {
        Some(text)
    } else {
        match with_values(text, values, n - 1) {
            None => None,
            Some(t) => regex_replaced(key_pattern(values[n - 1].0), t, values[n - 1].1),
        }
    }
}

/// The HTML of the element `e` around the HTML `inside` of its children.
pub open spec fn frame(e: Element, inside: Page) -> Option<Page> {
    let text = or_empty(opt_text(e.text));
    match e.kind {
        Kind::Paragraph => Some(Page { html: "<p>"@ + inside.html + "</p>"@, ..inside }),
        Kind::Bold => Some(Page { html: "<b>"@ + inside.html + "</b>"@, ..inside }),
        Kind::Italic => Some(Page { html: "<i>"@ + inside.html + "</i>"@, ..inside }),
        Kind::BoldItalic => Some(Page { html: "<b><i>"@ + inside.html + "</i></b>"@, ..inside }),
        Kind::Blockquote => Some(
            Page { html: "<blockquote>"@ + inside.html + "</blockquote>"@, ..inside },
        ),
        Kind::Header => {
            let num = shown_level(attr_or(e, "level"@, "6"@));
            match anchor_of(inside.html) {
                None => None,
                Some(a) => Some(
                    Page {
                        html: "<h"@ + num + " id=\""@ + a + "\"><a href=\"#"@ + a + "\">"@
                            + inside.html + "</a></h"@ + num + ">"@,
                        ..inside
                    },
                ),
            }
        },
        Kind::Text => Some(Page { html: text + inside.html, ..inside }),
        Kind::Link => match link_html(attr_or(e, "link"@, Seq::empty()), text) {
            None => None,
            Some((start, end)) => Some(Page { html: start + inside.html + end, ..inside }),
        },
        Kind::FilePrev => match file_html(attr_or(e, "link"@, Seq::empty()), text) {
            None => None,
            Some((html, asset)) => Some(
                Page {
                    html: html + inside.html,
                    assets: match asset {
                        Some(a) => inside.assets.push(a),
                        None => inside.assets,
                    },
                },
            ),
        },
        Kind::ListItem => match level_of(attr_or(e, "level"@, "1"@)) {
            None => None,
            Some(level) => Some(
                Page {
                    html: "<li class=\"item\">"@ + tabs(level + 1) + inside.html + "</li>"@,
                    ..inside
                },
            ),
        },
        Kind::OrderedListElement => match level_of(attr_or(e, "level"@, "1"@)) {
            None => None,
            Some(level) => Some(
                Page {
                    html: "<li class=\"num-list\">"@ + tabs(level + 1) + attr_or(e, "num"@, "0"@)
                        + "."@ + inside.html + "</li>"@,
                    ..inside
                },
            ),
        },
        Kind::InlineCode => Some(
            Page {
                html: "<div class=\"inline-code\">"@ + text + inside.html + "</div>"@,
                ..inside
            },
        ),
        Kind::BlockCode => match highlight_of(attr_or(e, "lang"@, "plaintext"@), text) {
            None => None,
            Some(h) => Some(Page { html: h + inside.html, ..inside }),
        },
        Kind::HorizontalRule => Some(Page { html: "<hr>"@ + inside.html, ..inside }),
        Kind::EndOfLine => Some(Page { html: "\n<br>\n"@ + inside.html, ..inside }),
        Kind::InlineLaTeX => match latex_inline(text) {
            None => None,
            Some(m) => Some(Page { html: m + inside.html, ..inside }),
        },
        Kind::BlockLaTeX => match latex_display(text) {
            None => None,
            Some(m) => Some(
                Page {
                    html: "<br>\n<div class=\"latex\">"@ + m + inside.html + "\n</div>\n<br>"@,
                    ..inside
                },
            ),
        },
        Kind::CustomElement(c) => match c.template {
            Some(t) => match template_text(
                t@,
                c.values.bindings(),
                opt_text(c.body),
                inside.html,
            ) {
                None => None,
                Some(html) => Some(Page { html, ..inside }),
            },
            None => Some(inside),
        },
        Kind::LineBreak => Some(inside),
    }
}

/// The HTML of the first `n` children of `e`, one after the other.
pub open spec fn kids_page(e: Element, n: nat) -> Option<Page>
    decreases e, 0nat, n,
{
    if n == 0 || n > e.elements.len() {
        Some(Page { html: Seq::empty(), assets: Seq::empty() })
    } else {
        match kids_page(e, (n - 1) as nat) {
            None => None,
            Some(a) => match element_page(e.elements[n - 1]) {
                None => None,
                Some(b) => Some(Page { html: a.html + b.html, assets: a.assets + b.assets }),
            },
        }
    }
}

/// The HTML of the element `e`, and the files that it refers to; `None`
/// where a part of it cannot be rendered.
pub open spec fn element_page(e: Element) -> Option<Page>
    decreases e, 1nat, 0nat,
{
    match kids_page(e, e.elements.len() as nat) {
        None => None,
        Some(inside) => frame(e, inside),
    }
}

/// The HTML of the first `n` elements of a list, one after the other.
pub open spec fn list_page(list: Seq<Element>, n: int) -> Option<Page>
    decreases n,
{
    if n <= 0 || n > list.len() {
        Some(Page { html: Seq::empty(), assets: Seq::empty() })
    } else {
        match list_page(list, n - 1) {
            None => None,
            Some(a) => match element_page(list[n - 1]) {
                None => None,
                Some(b) => Some(Page { html: a.html + b.html, assets: a.assets + b.assets }),
            },
        }
    }
}

fn concat3(a: &str, b: &str, c: &str) -> (s: String)
    ensures
        s@ == a@ + b@ + c@,
{
    let mut s = string_of(a);
    push_text(&mut s, b);
    push_text(&mut s, c);
    s
}

/// The opening and the closing of the link to `url` with the text `text`.
pub fn handle_link(url: &str, text: &str) -> (r: Option<(String, String)>)
    ensures
        match r {
            Some((start, end)) => link_html(url@, text@) == Some((start@, end@)),
            None => link_html(url@, text@) is None,
        },
{
    let valid = regex_is_match(
        "^(http(s)://.)?[-a-zA-Z0-9@:%._\\+~#=]{2,256}\\.[a-z]{2,6}\\b([-a-zA-Z0-9@:%_\\+.~#?&//=]*)$",
        url,
    )?;
    let mut start = string_of("<a href=\"");
    push_text(&mut start, url);
    if valid {
        push_text(&mut start, "\" target=\"_blank\">");
    } else {
        push_text(&mut start, "\">");
    }
    push_text(&mut start, text);
    Some((start, string_of("</a>")))
}

/// The HTML that shows the file at `url`, and the file where it is one of
/// the site.
pub fn handle_file_url(url: &str, text: &str) -> (r: Option<(String, Option<String>)>)
    ensures
        match r {
            Some((html, asset)) => file_html(url@, text@) == Some((html@, opt_text(asset))),
            None => file_html(url@, text@) is None,
        },
{
    let mut image = string_of("<img src=\"");
    push_text(&mut image, url);
    push_text(&mut image, "\" alt=\"");
    push_text(&mut image, text);
    push_text(&mut image, "\">");
    let valid = regex_is_match(
        "^(http(s)://.)?[-a-zA-Z0-9@:%._\\+~#=]{2,256}\\.[a-z]{2,6}\\b([-a-zA-Z0-9@:%_\\+.~#?&//=]*)$",
        url,
    )?;
    if valid {
        return Some((image, None));
    }
    let picture = regex_is_match(
        "^.+\\.(png|jpeg|apng|avif|gif|jpg|jfif|pjpeg|pjp|svg|webp)$",
        url,
    )?;
    if picture {
        return Some((image, Some(string_of(url))));
    }
    let video = regex_is_match("^.+\\.(webm|mp4)$", url)?;
    if video {
        let format = regex_group("^.+\\.(webm|mp4)$", url)?;
        let mut source = string_of("<source src=\"");
        push_text(&mut source, url);
        push_text(&mut source, "\" type=\"video/");
        push_text(&mut source, format.as_str());
        push_text(&mut source, "\">");
        return Some((source, Some(string_of(url))));
    }
    Some((String::new(), None))
}

/// The text without its first line break.
pub fn remove_first_break(code: &str) -> (s: String)
    ensures
        s@ == without_first_break(code@),
{
    let chars = chars_of(code);
    let mut at: usize = 0;
    while at < chars.len() && chars[at] != '\n'
        invariant
            at <= chars.len(),
            first_break(chars@, at as int) == first_break(chars@, 0),
        decreases chars.len() - at,
    {
        at += 1;
    }
    let mut s = String::new();
    if at < chars.len() {
        push_range(&mut s, &chars, 0, at);
        push_range(&mut s, &chars, at + 1, chars.len());
        proof {
            assert(s@ =~= chars@.take(at as int) + chars@.skip(at + 1));
        }
    } else {
        push_chars(&mut s, &chars);
        proof {
            assert(s@ =~= chars@);
        }
    }
    s
}

/// The HTML of `code` highlighted as the language `lang`, or as plain text
/// where `lang` names no syntax. The first line break of the code is left
/// out.
pub fn highlight(lang: String, code: String) -> (r: Result<String, HighlightError>)
    ensures
        match r {
            Ok(h) => highlight_of(lang@, code@) == Some(h@),
            Err(e) => highlight_of(lang@, code@) is None && (e is NoTheme <==> highlighted_as(
                lang@,
                without_first_break(code@),
                code_theme(),
            ) is None && highlighted_plain(without_first_break(code@), code_theme()) is None),
        },
{
    let code = remove_first_break(code.as_str());
    match highlight_as(lang.as_str(), code.as_str(), "base16-mocha.dark") {
        Some(Ok(h)) => Ok(h),
        Some(Err(e)) => Err(HighlightError::Internal(e)),
        None => match highlight_plain(code.as_str(), "base16-mocha.dark") {
            Some(Ok(h)) => Ok(h),
            Some(Err(e)) => Err(HighlightError::Internal(e)),
            None => Err(HighlightError::NoTheme),
        },
    }
}

fn get_or(e: &Element, key: &str, d: &str) -> (s: String)
    ensures
        s@ == attr_or(*e, key@, d@),
{
    match e.attrs.get(key) {
        Some(v) => v.clone(),
        None => string_of(d),
    }
}

fn push_tabs(s: &mut String, n: usize)
    ensures
        final(s)@ == old(s)@ + tabs(n as int),
{
    let mut i: usize = 0;
    proof {
        assert(s@ + tabs(0) =~= s@);
    }
    while i < n
        invariant
            i <= n,
            s@ == old(s)@ + tabs(i as int),
        decreases n - i,
    {
        push_char(s, '\t');
        proof {
            assert(tabs(i + 1) =~= tabs(i as int).push('\t'));
            assert(s@ =~= old(s)@ + tabs(i + 1));
        }
        i += 1;
    }
}

fn parse_level(s: &str) -> (r: Option<usize>)
    ensures
        match r {
            Some(n) => level_of(s@) == Some(n as int) && n < usize::MAX,
            None => level_of(s@) is None,
        },
{
    let chars = chars_of(s);
    match parse_int(s) {
        Some(v) => if v >= 0 && chars.len() > 0 && chars[0] != '-' {
            Some(v as usize)
        } else {
            None
        },
        None => None,
    }
}

/// The template with `{elements}`, `{body}` and the keys of `values` in
/// braces replaced, each at its first place.
pub fn fill_template(template: &str, values: &StrMap, body: Option<&String>, elements: &str) -> (r:
    Option<String>)
    ensures
        opt_text(r) == template_text(
            template@,
            values.bindings(),
            crate::frontmatter::opt_ref_text(body),
            elements@,
        ),
{
    let a = regex_replace("\\{(?i)elements\\}", template, elements)?;
    let empty = String::new();
    let body_text: &str = match body {
        Some(b) => b.as_str(),
        None => empty.as_str(),
    };
    let b = regex_replace("\\{(?i)body\\}", a.as_str(), body_text)?;
    let mut output = b;
    let mut i: usize = 0;
    while i < values.len()
        invariant
            i <= values.bindings().len(),
            Some(output@) == with_values(b@, values.bindings(), i as int),
            template_text(
                template@,
                values.bindings(),
                crate::frontmatter::opt_ref_text(body),
                elements@,
            ) == with_values(b@, values.bindings(), values.bindings().len() as int),
        decreases values.bindings().len() - i,
    {
        let mut pattern = string_of("\\{(?i)");
        push_text(&mut pattern, values.key_at(i).as_str());
        push_text(&mut pattern, "\\}");
        proof {
            assert(pattern@ =~= key_pattern(values.bindings()[i as int].0));
        }
        match regex_replace(pattern.as_str(), output.as_str(), values.value_at(i).as_str()) {
            Some(t) => {
                output = t;
            },
            None => {
                proof {
                    lemma_values_fail(b@, values.bindings(), i + 1, values.bindings().len() as int);
                }
                return None;
            },
        }
        i += 1;
    }
    Some(output)
}

proof fn lemma_values_fail(text: Seq<char>, values: Seq<(Seq<char>, Seq<char>)>, at: int, n: int)
    requires
        0 < at <= n <= values.len(),
        with_values(text, values, at) is None,
    ensures
        with_values(text, values, n) is None,
    decreases n - at,
{
    if at < n {
        lemma_values_fail(text, values, at, n - 1);
    }
}

/// The HTML of the element `elm`, and the files that it refers to. Fails
/// where a part of it cannot be rendered.
pub fn render_element(elm: &Element) -> (r: Option<Rendered>)
    ensures
        opt_page(r) == element_page(*elm),
    decreases elm,
{
    let mut inside = String::new();
    let mut assets: Vec<String> = Vec::new();
    let mut i: usize = 0;
    proof {
        assert(texts_of(assets@) =~= Seq::empty());
    }
    while i < elm.elements.len()
        invariant
            i <= elm.elements.len(),
            kids_page(*elm, i as nat) == Some(Page { html: inside@, assets: texts_of(assets@) }),
        decreases elm.elements.len() - i,
    {
        match render_element(&elm.elements[i]) {
            None => {
                proof {
                    lemma_kids_fail(*elm, (i + 1) as nat, elm.elements.len() as nat);
                }
                return None;
            },
            Some(kid) => {
                let Rendered { html, assets: more } = kid;
                push_text(&mut inside, html.as_str());
                let ghost before = assets@;
                let mut more = more;
                let ghost added = more@;
                assets.append(&mut more);
                proof {
                    assert(texts_of(before + added) =~= texts_of(before) + texts_of(added));
                }
            },
        }
        i += 1;
    }
    frame_element(elm, inside, assets)
}

proof fn lemma_kids_fail(e: Element, at: nat, n: nat)
    requires
        0 < at <= n <= e.elements.len(),
        kids_page(e, at) is None,
    ensures
        kids_page(e, n) is None,
    decreases n - at,
{
    if at < n {
        lemma_kids_fail(e, at, (n - 1) as nat);
    }
}

fn framed(start: &str, inside: String, end: &str, assets: Vec<String>) -> (r: Option<Rendered>)
    ensures
        opt_page(r) == Some(
            Page { html: start@ + inside@ + end@, assets: texts_of(assets@) },
        ),
{
    Some(Rendered { html: concat3(start, inside.as_str(), end), assets })
}

fn prefixed(start: &str, inside: String, assets: Vec<String>) -> (r: Option<Rendered>)
    ensures
        opt_page(r) == Some(Page { html: start@ + inside@, assets: texts_of(assets@) }),
{
    let mut html = string_of(start);
    push_text(&mut html, inside.as_str());
    Some(Rendered { html, assets })
}

fn frame_element(elm: &Element, inside: String, assets: Vec<String>) -> (r: Option<Rendered>)
    ensures
        opt_page(r) == frame(*elm, Page { html: inside@, assets: texts_of(assets@) }),
{
    let empty = String::new();
    let text: &str = match &elm.text {
        Some(t) => t.as_str(),
        None => empty.as_str(),
    };
    proof {
        reveal_strlit("");
        assert(""@ =~= Seq::<char>::empty());
    }
    match &elm.kind {
        Kind::Paragraph => framed("<p>", inside, "</p>", assets),
        Kind::Bold => framed("<b>", inside, "</b>", assets),
        Kind::Italic => framed("<i>", inside, "</i>", assets),
        Kind::BoldItalic => framed("<b><i>", inside, "</i></b>", assets),
        Kind::Blockquote => framed("<blockquote>", inside, "</blockquote>", assets),
        Kind::Header => {
            let mut num = get_or(elm, "level", "6");
            match parse_int(num.as_str()) {
                Some(v) => {
                    if v > 6 && v <= 127 {
                        num = string_of("6");
                    }
                },
                None => {},
            }
            let trimmed_text = trim(inside.as_str());
            let pre_text = escape_text(trimmed_text.as_str());
            let dashed = regex_replace_all("\\s+", pre_text.as_str(), "-")?;
            let anchor = to_lowercase(dashed.as_str());
            let mut start = string_of("<h");
            push_text(&mut start, num.as_str());
            push_text(&mut start, " id=\"");
            push_text(&mut start, anchor.as_str());
            push_text(&mut start, "\"><a href=\"#");
            push_text(&mut start, anchor.as_str());
            push_text(&mut start, "\">");
            let mut end = string_of("</a></h");
            push_text(&mut end, num.as_str());
            push_text(&mut end, ">");
            let r = framed(start.as_str(), inside, end.as_str(), assets);
            proof {
                let a = anchor@;
                let n = num@;
                assert(start@ + inside@ + end@ =~= "<h"@ + n + " id=\""@ + a + "\"><a href=\"#"@
                    + a + "\">"@ + inside@ + "</a></h"@ + n + ">"@);
            }
            r
        },
        Kind::Text => prefixed(text, inside, assets),
        Kind::Link => {
            let url = get_or(elm, "link", "");
            let (start, end) = handle_link(url.as_str(), text)?;
            framed(start.as_str(), inside, end.as_str(), assets)
        },
        Kind::FilePrev => {
            let url = get_or(elm, "link", "");
            let (html, asset) = handle_file_url(url.as_str(), text)?;
            let mut assets = assets;
            if let Some(a) = asset {
                proof {
                    assert(texts_of(assets@.push(a)) =~= texts_of(assets@).push(a@));
                }
                assets.push(a);
            }
            prefixed(html.as_str(), inside, assets)
        },
        Kind::ListItem => {
            let level = parse_level(get_or(elm, "level", "1").as_str())?;
            let mut start = string_of("<li class=\"item\">");
            push_tabs(&mut start, level + 1);
            framed(start.as_str(), inside, "</li>", assets)
        },
        Kind::OrderedListElement => {
            let level = parse_level(get_or(elm, "level", "1").as_str())?;
            let mut start = string_of("<li class=\"num-list\">");
            push_tabs(&mut start, level + 1);
            push_text(&mut start, get_or(elm, "num", "0").as_str());
            push_text(&mut start, ".");
            framed(start.as_str(), inside, "</li>", assets)
        },
        Kind::InlineCode => {
            let mut start = string_of("<div class=\"inline-code\">");
            push_text(&mut start, text);
            framed(start.as_str(), inside, "</div>", assets)
        },
        Kind::BlockCode => {
            let lang = get_or(elm, "lang", "plaintext");
            match highlight(lang, string_of(text)) {
                Ok(h) => prefixed(h.as_str(), inside, assets),
                Err(_) => None,
            }
        },
        Kind::HorizontalRule => prefixed("<hr>", inside, assets),
        Kind::EndOfLine => prefixed("\n<br>\n", inside, assets),
        Kind::InlineLaTeX => {
            let m = render_latex_inline(text)?;
            prefixed(m.as_str(), inside, assets)
        },
        Kind::BlockLaTeX => {
            let m = render_latex_display(text)?;
            let mut start = string_of("<br>\n<div class=\"latex\">");
            push_text(&mut start, m.as_str());
            framed(start.as_str(), inside, "\n</div>\n<br>", assets)
        },
        Kind::CustomElement(c) => match &c.template {
            Some(t) => {
                let html = fill_template(t.as_str(), &c.values, c.body.as_ref(), inside.as_str())?;
                Some(Rendered { html, assets })
            },
            None => Some(Rendered { html: inside, assets }),
        },
        Kind::LineBreak => Some(Rendered { html: inside, assets }),
    }
}

/// The HTML of the elements of a list, one after the other, and the files
/// that they refer to.
pub fn render_elements(list: &Vec<Element>) -> (r: Option<Rendered>)
    ensures
        opt_page(r) == list_page(list@, list.len() as int),
{
    let mut html = String::new();
    let mut assets: Vec<String> = Vec::new();
    let mut i: usize = 0;
    proof {
        assert(texts_of(assets@) =~= Seq::empty());
    }
    while i < list.len()
        invariant
            i <= list.len(),
            list_page(list@, i as int) == Some(Page { html: html@, assets: texts_of(assets@) }),
        decreases list.len() - i,
    {
        match render_element(&list[i]) {
            None => {
                proof {
                    lemma_list_fail(list@, i + 1, list.len() as int);
                }
                return None;
            },
            Some(kid) => {
                let Rendered { html: more_html, assets: more } = kid;
                push_text(&mut html, more_html.as_str());
                let ghost before = assets@;
                let mut more = more;
                let ghost added = more@;
                assets.append(&mut more);
                proof {
                    assert(texts_of(before + added) =~= texts_of(before) + texts_of(added));
                }
            },
        }
        i += 1;
    }
    Some(Rendered { html, assets })
}

proof fn lemma_list_fail(list: Seq<Element>, at: int, n: int)
    requires
        0 < at <= n <= list.len(),
        list_page(list, at) is None,
    ensures
        list_page(list, n) is None,
    decreases n - at,
{
    if at < n {
        lemma_list_fail(list, at, n - 1);
    }
}

/// The template of a whole page that `name` names, in any case of its
/// letters.
pub open spec fn page_template(name: Seq<char>) -> Option<Seq<char>> {
    if crate::text::same_ignoring_ascii_case(name, seq!['t', 'e', 's', 't']) {
        Some(test_template())
    } else if crate::text::same_ignoring_ascii_case(
        name,
        seq!['d', 'e', 'f', 'a', 'u', 'l', 't'],
    ) {
        Some(default_template())
    } else {
        None
    }
}

/// The template of a test page.
pub open spec fn test_template() -> Seq<char> {
    "Test template: {value_1} {value_2}\n<br>\n{elements}"@
}

/// The template of a page.
pub open spec fn default_template() -> Seq<char> {
    "<!DOCTYPE html>\n<html lang=\"\">\n\n<head>\n    <meta charset=\"utf-8\">\n    <meta http-equiv=\"X-UA-Compatible\" content=\"IE=edge\">\n    <meta name=\"viewport\" content=\"width=device-width,initial-scale=1.0\">\n    <meta name=\"head:count\" content=\"4\">\n    <title>{title}</title>\n</head>\n\n<body>\n    {elements}\n</body>\n\n</html>\n"@
}

/// The template that a custom element brings.
pub open spec fn brought_template(e: Element) -> Option<Seq<char>> {
    match e.kind {
        Kind::CustomElement(c) => opt_text(c.template),
        _ => None,
    }
}

/// A template with what fills it: values, a body, and elements.
#[derive(Debug)]
pub struct Template<'a> {
    pub template: &'a str,
    pub values: &'a StrMap,
    pub body: Option<&'a String>,
    pub elements: &'a Vec<Element>,
    pub asset_list: Vec<String>,
}

impl<'a> Template<'a> {
    /// A template with what fills it.
    pub fn new(
        template_str: &'a str,
        values: &'a StrMap,
        body: Option<&'a String>,
        elements: &'a Vec<Element>,
    ) -> (t: Self)
        ensures
            t.template == template_str,
            t.values == values,
            t.body == body,
            t.elements == elements,
            t.asset_list@ == Seq::<String>::empty(),
    {
        Template { template: template_str, values, body, elements, asset_list: Vec::new() }
    }

    /// The template that a custom element brings, with what the element
    /// holds to fill it. Fails where the element is no custom element or has
    /// no template.
    pub fn try_from(elm: &'a Element) -> (r: Result<Self, ()>)
        ensures
            match r {
                Ok(t) => brought_template(*elm) == Some(t.template@) && t.elements@
                    == elm.elements@ && t.asset_list@ == Seq::<String>::empty() && (
                match elm.kind {
                    Kind::CustomElement(c) => t.values.bindings() == c.values.bindings()
                        && crate::frontmatter::opt_ref_text(t.body) == opt_text(c.body),
                    _ => false,
                }),
                Err(_) => brought_template(*elm) is None,
            },
    {
        if let Kind::CustomElement(c) = &elm.kind {
            if let Some(t) = &c.template {
                return Ok(
                    Template {
                        template: t.as_str(),
                        values: &c.values,
                        body: c.body.as_ref(),
                        elements: &elm.elements,
                        asset_list: Vec::new(),
                    },
                );
            }
        }
        Err(())
    }

    /// The template of a whole page that `name` names.
    pub fn get_template(name: &str) -> (r: Option<&'static str>)
        ensures
            crate::plugins::opt_str(r) == page_template(name@),
    {
        let a = chars_of(name);
        let test = chars_of("test");
        let default = chars_of("default");
        proof {
            reveal_strlit("test");
            reveal_strlit("default");
            assert(test@ =~= seq!['t', 'e', 's', 't']);
            assert(default@ =~= seq!['d', 'e', 'f', 'a', 'u', 'l', 't']);
        }
        if crate::text::equal_ignoring_ascii_case(&a, &test) {
            Some("Test template: {value_1} {value_2}\n<br>\n{elements}")
        } else if crate::text::equal_ignoring_ascii_case(&a, &default) {
            Some(
                "<!DOCTYPE html>\n<html lang=\"\">\n\n<head>\n    <meta charset=\"utf-8\">\n    <meta http-equiv=\"X-UA-Compatible\" content=\"IE=edge\">\n    <meta name=\"viewport\" content=\"width=device-width,initial-scale=1.0\">\n    <meta name=\"head:count\" content=\"4\">\n    <title>{title}</title>\n</head>\n\n<body>\n    {elements}\n</body>\n\n</html>\n",
            )
        } else {
            None
        }
    }

    /// The template of the name `name` with what fills it.
    pub fn new_from_name(
        name: &str,
        values: &'a StrMap,
        body: Option<&'a String>,
        elements: &'a Vec<Element>,
    ) -> (r: Option<Self>)
        ensures
            match r {
                Some(t) => page_template(name@) == Some(t.template@) && t.values == values
                    && t.body == body && t.elements == elements && t.asset_list@ == Seq::<
                    String,
                >::empty(),
                None => page_template(name@) is None,
            },
    {
        let template_str = Template::get_template(name)?;
        Some(Template::new(template_str, values, body, elements))
    }

    /// The HTML of the template filled. The files that the elements refer to
    /// are added to the list of assets.
    pub fn render(&mut self) -> (r: Option<String>)
        ensures
            final(self).template == old(self).template,
            final(self).values == old(self).values,
            final(self).body == old(self).body,
            final(self).elements == old(self).elements,
            match list_page(old(self).elements@, old(self).elements.len() as int) {
                Some(p) => opt_text(r) == template_text(
                    old(self).template@,
                    old(self).values.bindings(),
                    crate::frontmatter::opt_ref_text(old(self).body),
                    p.html,
                ) && (r is Some ==> texts_of(final(self).asset_list@) == texts_of(
                    old(self).asset_list@,
                ) + p.assets),
                None => r is None,
            },
    {
        let rendered = render_elements(self.elements)?;
        let Rendered { html, assets } = rendered;
        let out = fill_template(self.template, self.values, self.body, html.as_str())?;
        let ghost before = self.asset_list@;
        let mut assets = assets;
        let ghost added = assets@;
        self.asset_list.append(&mut assets);
        proof {
            assert(texts_of(before + added) =~= texts_of(before) + texts_of(added));
        }
        Some(out)
    }
}

/// Something that is rendered to HTML.
pub trait Render {
    /// The HTML, or none where it cannot be rendered.
    fn render(&mut self, path: &str) -> Option<String>;
}

/// A document with what rendering has made of it.
#[derive(Debug)]
pub struct Renderer {
    pub parser: Parser,
    pub asset_list: Vec<String>,
    pub output: String,
    pub path: String,
}

/// The HTML of a page with the line breaks thinned out: a line break that
/// stands alone goes, and two in a row become one.
pub open spec fn thinned(html: Seq<char>) -> Option<Seq<char>> {
    match regex_replaced_all("(<br>\n*){2}"@, html, "<double br>\n"@) {
        None => None,
        Some(a) => match regex_replaced_all("<br>\n?"@, a, "\n"@) {
            None => None,
            Some(b) => regex_replaced_all("<double br>\n"@, b, "<br>\n"@),
        },
    }
}

/// The values that fill the template of the page of a document: its values
/// as one map, and its title.
pub open spec fn page_values(fm: FrontMatter) -> Seq<(Seq<char>, Seq<char>)> {
    let values = match fm.values {
        Some(maps) => merged_bindings(map_bindings(maps@)),
        None => Seq::empty(),
    };
    match fm.title {
        Some(t) => bind(values, "title"@, t@),
        None => values,
    }
}

/// The HTML of the page of a document.
pub open spec fn document_html(p: Parser) -> Option<Seq<char>> {
    match p.metadata.frontmatter.kind {
        None => None,
        Some(kind) => match page_template(kind@) {
            None => None,
            Some(template) => match list_page(p.ast.elements@, p.ast.elements.len() as int) {
                None => None,
                Some(page) => match template_text(
                    template,
                    page_values(p.metadata.frontmatter),
                    None,
                    page.html,
                ) {
                    None => None,
                    Some(html) => thinned(html),
                },
            },
        },
    }
}

impl Renderer {
    /// A renderer of the document `parser`, which goes to the path that its
    /// metadata names.
    pub fn new(parser: Parser) -> (r: Self)
        ensures
            r.parser == parser,
            r.asset_list@ == Seq::<String>::empty(),
            r.output@ == Seq::<char>::empty(),
            r.path@ == or_empty(opt_text(parser.metadata.frontmatter.path)),
    {
        let path = crate::plugins::text_or_empty(parser.metadata.frontmatter.get_path());
        Renderer { parser, asset_list: Vec::new(), output: String::new(), path }
    }
}

impl Renderer {
    /// The files that are to be moved for the page: none as long as the
    /// document has no output.
    pub fn move_assets(&self) -> (r: Option<&Vec<String>>)
        ensures
            match r {
                Some(list) => self.output@.len() > 0 && *list == self.asset_list,
                None => self.output@.len() == 0,
            },
    {
        let chars = chars_of(self.output.as_str());
        if chars.len() == 0 {
            None
        } else {
            Some(&self.asset_list)
        }
    }
}

impl Render for Renderer {
    fn render(&mut self, _path: &str) -> (r: Option<String>)
        ensures
            final(self).parser == old(self).parser,
            final(self).path == old(self).path,
            opt_text(r) == document_html(old(self).parser),
            match r {
                Some(html) => final(self).output@ == html@ && (match list_page(
                    old(self).parser.ast.elements@,
                    old(self).parser.ast.elements.len() as int,
                ) {
                    Some(p) => texts_of(final(self).asset_list@) == texts_of(
                        old(self).asset_list@,
                    ) + p.assets,
                    None => false,
                }),
                None => *final(self) == *old(self),
            },
    {
        let kind = self.parser.metadata.frontmatter.get_kind()?;
        let mut values = match self.parser.metadata.frontmatter.get_values() {
            Some(v) => v,
            None => StrMap::new(),
        };
        proof {
            if self.parser.metadata.frontmatter.values is None {
                assert(values.bindings() =~= Seq::empty());
            }
        }
        if let Some(title) = self.parser.metadata.frontmatter.get_title() {
            values.insert("title", title.clone());
        }
        proof {
            assert(values.bindings() == page_values(self.parser.metadata.frontmatter));
        }
        let mut template = Template::new_from_name(
            kind.as_str(),
            &values,
            None,
            &self.parser.ast.elements,
        )?;
        let html = template.render()?;
        let a = regex_replace_all("(<br>\n*){2}", html.as_str(), "<double br>\n")?;
        let b = regex_replace_all("<br>\n?", a.as_str(), "\n")?;
        let c = regex_replace_all("<double br>\n", b.as_str(), "<br>\n")?;
        let Template { template: _, values: _, body: _, elements: _, asset_list } = template;
        let ghost before = self.asset_list@;
        let mut more = asset_list;
        let ghost added = more@;
        self.asset_list.append(&mut more);
        proof {
            assert(texts_of(before + added) =~= texts_of(before) + texts_of(added));
            assert(texts_of(Seq::<String>::empty()) =~= Seq::<Seq<char>>::empty());
        }
        self.output = c.clone();
        Some(c)
    }
}

/// The HTML of the page of a document.
pub fn render_one(parser: Parser) -> (r: Option<String>)
    ensures
        opt_text(r) == document_html(parser),
{
    let mut renderer = Renderer::new(parser);
    renderer.render("")
}

/// A renderer for each document, with the document rendered.
pub fn render_list(parsers: Vec<Parser>) -> (r: Vec<Renderer>)
    ensures
        r.len() == parsers.len(),
        forall|i: int|
            0 <= i < r.len() ==> (#[trigger] r[i]).parser == parsers[i] && (match document_html(
                parsers[i],
            ) {
                Some(html) => r[i].output@ == html,
                None => r[i].output@ == Seq::<char>::empty(),
            }),
{
    let ghost given = parsers@;
    let mut pending = parsers;
    let n: usize = pending.len();
    let mut rest: Vec<Parser> = Vec::new();
    while pending.len() > 0
        invariant
            rest.len() + pending.len() == n == given.len(),
            forall|i: int| 0 <= i < pending.len() ==> pending[i] == given[i],
            forall|i: int|
                0 <= i < rest.len() ==> (#[trigger] rest[i]) == given[given.len() - 1 - i],
        decreases pending.len(),
    {
        let p = pending.pop().unwrap();
        rest.push(p);
    }
    let mut out: Vec<Renderer> = Vec::new();
    while rest.len() > 0
        invariant
            out.len() + rest.len() == n == given.len(),
            forall|i: int|
                0 <= i < rest.len() ==> (#[trigger] rest[i]) == given[given.len() - 1 - i],
            forall|i: int|
                0 <= i < out.len() ==> (#[trigger] out[i]).parser == given[i] && (
                match document_html(given[i]) {
                    Some(html) => out[i].output@ == html,
                    None => out[i].output@ == Seq::<char>::empty(),
                }),
        decreases rest.len(),
    {
        let p = rest.pop().unwrap();
        let mut renderer = Renderer::new(p);
        let _ = renderer.render("");
        out.push(renderer);
    }
    out
}

/// The number of `../` that lead from a file up to the root, where the path
/// of the file can be shortened `parents` times.
pub fn get_dot_number(parents: usize) -> (r: usize)
    ensures
        r == (if parents >= 1 {
            parents - 1
        } else {
            0
        }),
{
    if parents >= 1 {
        parents - 1
    } else {
        parents
    }
}

/// `../` for each step, without the last `/`.
pub open spec fn dots(steps: int) -> Seq<char>
    decreases steps,
{
    if steps <= 0 {
        Seq::empty()
    } else if steps == 1 {
        ".."@
    } else {
        "../"@ + dots(steps - 1)
    }
}

/// The way from a file up to the root, where the path of the file can be
/// shortened `parents` times: `../` for each step, without the last `/`.
pub fn get_dots(parents: usize) -> (s: String)
    ensures
        s@ == dots(
            if parents >= 1 {
                parents - 1
            } else {
                0
            },
        ),
{
    let n = get_dot_number(parents);
    let mut s = String::new();
    let mut i: usize = n;
    proof {
        assert(s@ + dots(n as int) =~= dots(n as int));
    }
    while i > 0
        invariant
            i <= n,
            dots(n as int) == s@ + dots(i as int),
        decreases i,
    {
        let ghost before = s@;
        if i == 1 {
            push_text(&mut s, "..");
            proof {
                assert(before + ".."@ + dots(0) =~= before + dots(1));
            }
        } else {
            push_text(&mut s, "../");
            proof {
                assert(before + "../"@ + dots(i - 1) =~= before + dots(i as int));
            }
        }
        i -= 1;
    }
    proof {
        assert(s@ + dots(0) =~= s@);
    }
    s
}

} // verus!
