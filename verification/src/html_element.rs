//! Elements of HTML that stand alone: each kind with what it holds, and the
//! tag that it is written as.

use vstd::prelude::*;
use crate::custom::opt_text;
use crate::render::{highlight, highlight_of};
use crate::text::{i32_to_string, push_text, signed_decimal, string_of};

verus! {

/// The kinds of element, each with what it holds.
#[derive(Debug)]
#[allow(inconsistent_fields)]
pub enum ElementKind {
    Paragraph,
    Text { text: String },
    Bold,
    Italic,
    Blockquote,
    Link { text: String, link: String },
    Filelink { text: String, link: String },
    ListItem { level: i32 },
    NumList { level: i32, num: String },
    InlineCode { code: String },
    Blockcode { code: String, lang: String },
    InlineLaTeX { tex: String },
    BlockLaTeX { tex: String },
    Header { level: i8 },
    HorizontalRule,
    LineBreak,
    CustomElm,
}

/// An element with the elements inside it.
#[derive(Debug)]
pub struct HtmlElement {
    pub inside: Vec<HtmlElement>,
    pub kind: ElementKind,
}

impl HtmlElement {
    /// An element of the kind `kind` around the elements `inside`.
    pub fn new(kind: ElementKind, inside: Vec<HtmlElement>) -> (e: Self)
        ensures
            e.kind == kind,
            e.inside == inside,
    {
        HtmlElement { kind, inside }
    }
}

/// The HTML of an element of the kind `kind` with nothing inside it; `None`
/// where its code cannot be highlighted.
pub open spec fn kind_html(kind: ElementKind) -> Option<Seq<char>> {
    match kind {
        ElementKind::Paragraph => Some("<p>"@ + "</p>"@),
        ElementKind::Text { text } => Some(text@),
        ElementKind::Bold => Some("<b>"@ + "</b>"@),
        ElementKind::Italic => Some("<i>"@ + "</i>"@),
        ElementKind::Blockquote => Some("<blockquote>"@ + "</blockquote>"@),
        ElementKind::Link { text, link } => Some(
            "<a href=\""@ + link@ + "\" target=\"_blank\">"@ + text@ + "</a>"@,
        ),
        ElementKind::Filelink { text, link } => Some(
            "<img src=\""@ + link@ + "\" alt=\""@ + text@ + "\">"@,
        ),
        ElementKind::ListItem { level } => Some(
            "<li class=\"level-"@ + signed_decimal(level as int) + "\">"@ + "</li>"@,
        ),
        ElementKind::NumList { level, num } => Some(
            "<li class=\"level-"@ + signed_decimal(level as int) + "\">"@ + num@ + "."@
                + "</li>"@,
        ),
        ElementKind::InlineCode { code } => Some(
            "<div class=\"inline-code\">"@ + code@ + "</div>"@,
        ),
        ElementKind::Blockcode { code, lang } => highlight_of(lang@, code@),
        ElementKind::HorizontalRule => Some("<hr>"@),
        ElementKind::LineBreak => Some("<br>"@),
        _ => Some(Seq::empty()),
    }
}

fn tag(start: &str, end: &str) -> (r: Option<String>)
    ensures
        opt_text(r) == Some(start@ + end@),
{
    let mut s = string_of(start);
    push_text(&mut s, end);
    Some(s)
}

impl ElementKind {
    /// The HTML of the element with nothing inside it. Fails where its code
    /// cannot be highlighted.
    pub fn render(&self) -> (r: Option<String>)
        ensures
            opt_text(r) == kind_html(*self),
    {
        match self {
            ElementKind::Paragraph => tag("<p>", "</p>"),
            ElementKind::Text { text } => Some(text.clone()),
            ElementKind::Bold => tag("<b>", "</b>"),
            ElementKind::Italic => tag("<i>", "</i>"),
            ElementKind::Blockquote => tag("<blockquote>", "</blockquote>"),
            ElementKind::Link { text, link } => {
                let mut s = string_of("<a href=\"");
                push_text(&mut s, link.as_str());
                push_text(&mut s, "\" target=\"_blank\">");
                push_text(&mut s, text.as_str());
                push_text(&mut s, "</a>");
                Some(s)
            },
            ElementKind::Filelink { text, link } => {
                let mut s = string_of("<img src=\"");
                push_text(&mut s, link.as_str());
                push_text(&mut s, "\" alt=\"");
                push_text(&mut s, text.as_str());
                push_text(&mut s, "\">");
                Some(s)
            },
            ElementKind::ListItem { level } => {
                let mut s = string_of("<li class=\"level-");
                push_text(&mut s, i32_to_string(*level).as_str());
                push_text(&mut s, "\">");
                push_text(&mut s, "</li>");
                Some(s)
            },
            ElementKind::NumList { level, num } => {
                let mut s = string_of("<li class=\"level-");
                push_text(&mut s, i32_to_string(*level).as_str());
                push_text(&mut s, "\">");
                push_text(&mut s, num.as_str());
                push_text(&mut s, ".");
                push_text(&mut s, "</li>");
                Some(s)
            },
            ElementKind::InlineCode { code } => {
                let mut s = string_of("<div class=\"inline-code\">");
                push_text(&mut s, code.as_str());
                push_text(&mut s, "</div>");
                Some(s)
            },
            ElementKind::Blockcode { code, lang } => match highlight(lang.clone(), code.clone()) {
                Ok(h) => Some(h),
                Err(_) => None,
            },
            ElementKind::HorizontalRule => Some(string_of("<hr>")),
            ElementKind::LineBreak => Some(string_of("<br>")),
            _ => Some(String::new()),
        }
    }
}

} // verus!
