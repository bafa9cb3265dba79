//! What the renderer takes from other libraries: regular expressions,
//! highlighted code, rendered LaTeX, and escaped text.

use vstd::prelude::*;

verus! {

/// The error type of the highlighter.
#[verifier::external_type_specification]
#[verifier::external_body]
pub struct ExHighlighterError(syntect::Error);

/// Whether the regular expression `pattern` matches somewhere in `text`;
/// `None` where `pattern` is no regular expression.
pub uninterp spec fn regex_matches(pattern: Seq<char>, text: Seq<char>) -> Option<bool>;

/// The text with the first match of the regular expression `pattern`
/// replaced by the expansion of `rep`; `None` where `pattern` is no regular
/// expression.
pub uninterp spec fn regex_replaced(pattern: Seq<char>, text: Seq<char>, rep: Seq<char>) -> Option<
    Seq<char>,
>;

/// The text with every match of the regular expression `pattern` replaced by
/// the expansion of `rep`; `None` where `pattern` is no regular expression.
pub uninterp spec fn regex_replaced_all(
    pattern: Seq<char>,
    text: Seq<char>,
    rep: Seq<char>,
) -> Option<Seq<char>>;

/// What the first group of the regular expression `pattern` holds in its
/// first match in `text`; `None` where `pattern` is no regular expression,
/// does not match, or where the group took no part in the match.
pub uninterp spec fn regex_first_group(pattern: Seq<char>, text: Seq<char>) -> Option<Seq<char>>;

/// The bounds in bytes of the first match of the regular expression
/// `pattern` in `text`, the end not included; `None` where `pattern` is no
/// regular expression or does not match.
pub uninterp spec fn regex_found(pattern: Seq<char>, text: Seq<char>) -> Option<(usize, usize)>;

/// The MathML of the LaTeX `text`, set in a line of text; `None` where
/// KaTeX cannot render it.
pub uninterp spec fn latex_inline(text: Seq<char>) -> Option<Seq<char>>;

/// The MathML of the LaTeX `text`, set on display; `None` where KaTeX
/// cannot render it.
pub uninterp spec fn latex_display(text: Seq<char>) -> Option<Seq<char>>;

/// The HTML of `code` highlighted as the syntax that `token` names, in the
/// colors of the theme `theme`; `None` where `token` names no syntax or
/// `theme` no theme, `Some(None)` where the highlighter fails.
pub uninterp spec fn highlighted_as(token: Seq<char>, code: Seq<char>, theme: Seq<char>) -> Option<
    Option<Seq<char>>,
>;

/// The HTML of `code` highlighted as plain text, in the colors of the theme
/// `theme`; `None` where `theme` names no theme, `Some(None)` where the
/// highlighter fails.
pub uninterp spec fn highlighted_plain(code: Seq<char>, theme: Seq<char>) -> Option<
    Option<Seq<char>>,
>;

/// The text without the white space at its start and its end, as
/// `str::trim` gives it.
pub uninterp spec fn trimmed(text: Seq<char>) -> Seq<char>;

/// The text in lower case, as `str::to_lowercase` gives it.
pub uninterp spec fn lowercased(text: Seq<char>) -> Seq<char>;

/// The text with `&`, `<` and `>` written as character references.
pub open spec fn escaped(text: Seq<char>) -> Seq<char>
    decreases text.len(),
{
    if text.len() == 0 {
        Seq::empty()
    } else {
        let c = text.last();
        let head = escaped(text.drop_last());
        if c == '&' {
            head + "&amp;"@
        } else if c == '<' {
            head + "&lt;"@
        } else if c == '>' {
            head + "&gt;"@
        } else {
            head.push(c)
        }
    }
}

/// Tests a regular expression on a text, by `Regex::new` and
/// `Regex::is_match`. The contract is believed, not proved: it names the
/// outcome.
#[verifier::external_body]
pub(crate) fn regex_is_match(pattern: &str, text: &str) -> (r: Option<bool>)
    ensures
        r == regex_matches(pattern@, text@),
{
    let re = regex::Regex::new(pattern).ok()?;
    Some(re.is_match(text))
}

/// Finds the first match of a regular expression, by `Regex::new` and
/// `Regex::find`. The contract is believed, not proved: it names the outcome.
#[verifier::external_body]
pub(crate) fn regex_find(pattern: &str, text: &str) -> (r: Option<(usize, usize)>)
    ensures
        r == regex_found(pattern@, text@),
{
    let re = regex::Regex::new(pattern).ok()?;
    match re.find(text) {
        Some(m) => Some((m.start(), m.end())),
        None => None,
    }
}

/// Replaces the first match of a regular expression, by `Regex::new` and
/// `Regex::replace`. The contract is believed, not proved: it names the
/// outcome.
#[verifier::external_body]
pub(crate) fn regex_replace(pattern: &str, text: &str, rep: &str) -> (r: Option<String>)
    ensures
        crate::custom::opt_text(r) == regex_replaced(pattern@, text@, rep@),
{
    let re = regex::Regex::new(pattern).ok()?;
    Some(re.replace(text, rep).to_string())
}

/// Replaces every match of a regular expression, by `Regex::new` and
/// `Regex::replace_all`. The contract is believed, not proved: it names the
/// outcome.
#[verifier::external_body]
pub(crate) fn regex_replace_all(pattern: &str, text: &str, rep: &str) -> (r: Option<String>)
    ensures
        crate::custom::opt_text(r) == regex_replaced_all(pattern@, text@, rep@),
{
    let re = regex::Regex::new(pattern).ok()?;
    Some(re.replace_all(text, rep).to_string())
}

/// Takes the first group of the first match of a regular expression, by
/// `Regex::new`, `Regex::captures` and `Captures::get`. The contract is
/// believed, not proved: it names the outcome.
#[verifier::external_body]
pub(crate) fn regex_group(pattern: &str, text: &str) -> (r: Option<String>)
    ensures
        crate::custom::opt_text(r) == regex_first_group(pattern@, text@),
{
    let re = regex::Regex::new(pattern).ok()?;
    match re.captures(text)?.get(1) {
        Some(m) => Some(m.as_str().to_string()),
        None => None,
    }
}

/// Renders LaTeX to MathML for a line of text, by `katex::render_with_opts`.
/// The contract is believed, not proved: it names the outcome.
#[verifier::external_body]
pub(crate) fn render_latex_inline(text: &str) -> (r: Option<String>)
    ensures
        crate::custom::opt_text(r) == latex_inline(text@),
{
    let opts = katex::Opts::builder().output_type(katex::OutputType::Mathml).build().ok()?;
    katex::render_with_opts(text, opts).ok()
}

/// Renders LaTeX to MathML for display, by `katex::render_with_opts`. The
/// contract is believed, not proved: it names the outcome.
#[verifier::external_body]
pub(crate) fn render_latex_display(text: &str) -> (r: Option<String>)
    ensures
        crate::custom::opt_text(r) == latex_display(text@),
{
    let opts = katex::Opts::builder().output_type(katex::OutputType::Mathml).display_mode(
        true,
    ).build().ok()?;
    katex::render_with_opts(text, opts).ok()
}

/// The outcome of the highlighter as plain values.
pub open spec fn highlight_text(r: Result<String, syntect::Error>) -> Option<Seq<char>> {
    match r {
        Ok(s) => Some(s@),
        Err(_) => None,
    }
}

/// Highlights code as the syntax that a token names, with the syntaxes and
/// themes that the highlighter brings, by `SyntaxSet::find_syntax_by_token`
/// and `highlighted_html_for_string`. The contract is believed, not proved:
/// it names the outcome.
#[verifier::external_body]
pub(crate) fn highlight_as(token: &str, code: &str, theme: &str) -> (r: Option<
    Result<String, syntect::Error>,
>)
    ensures
        match r {
            Some(h) => highlighted_as(token@, code@, theme@) == Some(highlight_text(h)),
            None => highlighted_as(token@, code@, theme@) is None,
        },
{
    let ps = syntect::parsing::SyntaxSet::load_defaults_newlines();
    let ts = syntect::highlighting::ThemeSet::load_defaults();
    let syntax = ps.find_syntax_by_token(token)?;
    Some(syntect::html::highlighted_html_for_string(code, &ps, syntax, ts.themes.get(theme)?))
}

/// Highlights code as plain text, with the syntaxes and themes that the
/// highlighter brings, by `SyntaxSet::find_syntax_plain_text` and
/// `highlighted_html_for_string`. The contract is believed, not proved: it
/// names the outcome.
#[verifier::external_body]
pub(crate) fn highlight_plain(code: &str, theme: &str) -> (r: Option<
    Result<String, syntect::Error>,
>)
    ensures
        match r {
            Some(h) => highlighted_plain(code@, theme@) == Some(highlight_text(h)),
            None => highlighted_plain(code@, theme@) is None,
        },
{
    let ps = syntect::parsing::SyntaxSet::load_defaults_newlines();
    let ts = syntect::highlighting::ThemeSet::load_defaults();
    let syntax = ps.find_syntax_plain_text();
    Some(syntect::html::highlighted_html_for_string(code, &ps, syntax, ts.themes.get(theme)?))
}

/// Escapes text for HTML, by `html_escape::encode_text`. The contract is
/// believed, not proved: `&`, `<` and `>` are written as `&amp;`, `&lt;` and
/// `&gt;`, and every other character stays.
#[verifier::external_body]
pub(crate) fn escape_text(text: &str) -> (r: String)
    ensures
        r@ == escaped(text@),
{
    html_escape::encode_text(text).to_string()
}

/// Trims a text, by `str::trim`. The contract is believed, not proved: it
/// names the outcome.
#[verifier::external_body]
pub(crate) fn trim(text: &str) -> (r: String)
    ensures
        r@ == trimmed(text@),
{
    text.trim().to_string()
}

/// Puts a text in lower case, by `str::to_lowercase`. The contract is
/// believed, not proved: it names the outcome.
#[verifier::external_body]
pub(crate) fn to_lowercase(text: &str) -> (r: String)
    ensures
        r@ == lowercased(text@),
{
    text.to_lowercase()
}

} // verus!
