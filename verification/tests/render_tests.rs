use bismuth::frontmatter::FrontMatter;
use bismuth::html_element::{ElementKind, HtmlElement};
use bismuth::parser::Parser;
use bismuth::render::{
    fill_template, get_dot_number, get_dots, handle_file_url, handle_link, highlight,
    remove_first_break, render_element, render_elements, render_one, Render, Renderer, Template,
};
use bismuth::resolve::parse_custom;
use bismuth::strmap::StrMap;
use bismuth::tree::{Element, Kind};

fn parsed(content: &str) -> Parser {
    let mut parser = Parser::new_test("/test/test.md", content).unwrap();
    parser.parse().unwrap();
    parser
}

fn html(content: &str) -> String {
    let parser = parsed(content);
    render_elements(&parser.ast.elements).unwrap().html
}

#[test]
fn inline_elements() {
    assert_eq!(html("test *test* **b** ***c***"), "<p>test <i>test</i> <b>b</b> <b><i>c</i></b></p>\n<br>\n");
    assert_eq!(html("a `b` c"), "<p>a <div class=\"inline-code\">b</div> c</p>\n<br>\n");
    assert_eq!(html("a\n> q"), "<p>a</p>\n<br>\n<blockquote> q</blockquote>\n<br>\n");
    assert_eq!(html("> q"), "<p>> q</p>\n<br>\n");
    assert_eq!(html("a\n---\n"), "<p>a</p>\n<br>\n<hr>\n<br>\n\n<br>\n");
}

#[test]
fn headers_have_an_anchor_and_at_most_level_six() {
    assert_eq!(
        html("## My  <Header>"),
        "<h2 id=\"my-&lt;header&gt;\"><a href=\"#my-&lt;header&gt;\"> My  <Header></a></h2>\n<br>\n"
    );
    assert_eq!(html("###### h"), "<h6 id=\"h\"><a href=\"#h\"> h</a></h6>\n<br>\n");
    assert_eq!(html("######## h"), "<h6 id=\"h\"><a href=\"#h\"> h</a></h6>\n<br>\n");
    let mut e = Element::with_id(Kind::Header, 1);
    assert_eq!(render_element(&e).unwrap().html, "<h6 id=\"\"><a href=\"#\"></a></h6>");
    e.add_attr("level", "200");
    assert_eq!(render_element(&e).unwrap().html, "<h200 id=\"\"><a href=\"#\"></a></h200>");
    e.add_attr("level", "x");
    assert_eq!(render_element(&e).unwrap().html, "<hx id=\"\"><a href=\"#\"></a></hx>");
}

#[test]
fn lists() {
    assert_eq!(
        html("a\n- x\n    - y\n1. one"),
        "<p>a</p>\n<br>\n<li class=\"item\">\t x</li>\n<br>\n<li class=\"item\">\t\t y</li>\n<br>\n<li class=\"num-list\">\t1. one</li>\n<br>\n"
    );
    let mut e = Element::with_id(Kind::ListItem, 1);
    assert_eq!(render_element(&e).unwrap().html, "<li class=\"item\">\t\t</li>");
    e.add_attr("level", "-1");
    assert!(render_element(&e).is_none());
    e.add_attr("level", "two");
    assert!(render_element(&e).is_none());
    let mut e = Element::with_id(Kind::OrderedListElement, 1);
    e.add_attr("level", "0");
    assert_eq!(render_element(&e).unwrap().html, "<li class=\"num-list\">\t0.</li>");
}

#[test]
fn links() {
    assert_eq!(
        handle_link("example.com", "text"),
        Some(("<a href=\"example.com\" target=\"_blank\">text".to_string(), "</a>".to_string()))
    );
    assert_eq!(
        handle_link("./page", "text"),
        Some(("<a href=\"./page\">text".to_string(), "</a>".to_string()))
    );
    assert_eq!(
        html("[test](link.url) [x](./y)"),
        "<a href=\"link.url\" target=\"_blank\">test <a href=\"./y\">x</a></a>\n<br>\n"
    );
}

#[test]
fn files() {
    assert_eq!(
        handle_file_url("example.com", "alt"),
        Some(("<img src=\"example.com\" alt=\"alt\">".to_string(), None))
    );
    assert_eq!(
        handle_file_url("./img/pic.png", "alt"),
        Some(("<img src=\"./img/pic.png\" alt=\"alt\">".to_string(), Some("./img/pic.png".to_string())))
    );
    assert_eq!(
        handle_file_url("./v/a.mp4", "alt"),
        Some(("<source src=\"./v/a.mp4\" type=\"video/mp4\">".to_string(), Some("./v/a.mp4".to_string())))
    );
    assert_eq!(
        handle_file_url("./v/a.webm", "alt"),
        Some(("<source src=\"./v/a.webm\" type=\"video/webm\">".to_string(), Some("./v/a.webm".to_string())))
    );
    assert_eq!(handle_file_url("./notes", "alt"), Some((String::new(), None)));

    let parser = parsed("![a](./one.png) and ![b](./two.gif)\n![c](example.com)");
    let page = render_elements(&parser.ast.elements).unwrap();
    assert_eq!(page.assets, vec!["./two.gif".to_string(), "./one.png".to_string()]);
    assert_eq!(
        page.html,
        "<img src=\"./one.png\" alt=\"a\"> and <img src=\"./two.gif\" alt=\"b\">\n<br>\n<img src=\"example.com\" alt=\"c\">\n<br>\n"
    );
}

#[test]
fn code_is_highlighted() {
    assert_eq!(remove_first_break("\nfn a() {}\n"), "fn a() {}\n");
    assert_eq!(remove_first_break("a"), "a");
    assert_eq!(remove_first_break(""), "");
    let rust = highlight("rs".to_string(), "\nfn test() {\n\tlet a = 10;\n}".to_string()).unwrap();
    assert!(rust.starts_with("<pre style=\"background-color:#"));
    assert!(rust.ends_with("</pre>\n"));
    assert!(rust.contains("fn "));
    let plain = highlight("no such language".to_string(), "let test = 10".to_string()).unwrap();
    assert!(plain.contains("let test = 10"));
    assert_ne!(rust, highlight("plaintext".to_string(), "\nfn test() {\n\tlet a = 10;\n}".to_string()).unwrap());
    let page = html("```rust\nfn a() {}\n```");
    assert!(page.starts_with("<pre style="));
    assert!(page.ends_with("</pre>\n\n<br>\n"));
}

#[test]
fn latex_is_rendered_to_mathml() {
    let inline = html("$E = mc^2$");
    assert!(inline.starts_with("<span class=\"katex\"><math"), "{inline}");
    let block = html("$$E = mc^2$$");
    assert!(block.starts_with("<br>\n<div class=\"latex\"><span class=\"katex\"><math"), "{block}");
    assert!(block.contains("display=\"block\""));
    assert!(!inline.contains("display=\"block\""));
    assert!(block.ends_with("\n</div>\n<br>\n<br>\n"));
    let mut e = Element::with_id(Kind::InlineLaTeX, 1);
    e.text = Some("\\frac{".to_string());
    assert!(render_element(&e).is_none());
}

#[test]
fn templates_are_filled() {
    let mut values = StrMap::new();
    values.insert("value", "one".to_string());
    values.insert("Other", "two $0".to_string());
    let body = "the body".to_string();
    assert_eq!(
        fill_template("{VALUE} {value} {other} {Body} {elements} {elements}", &values, Some(&body), "<p>x</p>"),
        Some("one {value} two {other} the body <p>x</p> {elements}".to_string())
    );
    assert_eq!(fill_template("a {body} b", &values, None, ""), Some("a  b".to_string()));
    let mut bad = StrMap::new();
    bad.insert("(", "x".to_string());
    assert_eq!(fill_template("a", &bad, None, ""), None);
}

#[test]
fn custom_elements_are_rendered_with_their_template() {
    let parser = parsed("%{{\nname: footer\n}}\n%{{\nname: nothing\n}}");
    let parser = parse_custom(parser, &vec![]).unwrap();
    assert_eq!(
        render_elements(&parser.ast.elements).unwrap().html,
        "<h1>Test template</h1>\n<br>\n\n<br>\n"
    );
}

#[test]
fn a_navbar_is_rendered() {
    let mut other = parsed("text");
    let mut m = StrMap::new();
    m.insert("navbar_include", "true".to_string());
    let mut o = StrMap::new();
    o.insert("navbar_order", "1".to_string());
    other.metadata.frontmatter = FrontMatter {
        title: Some("a.md".to_string()),
        path: Some("/a".to_string()),
        kind: Some("default".to_string()),
        values: Some(vec![m, o]),
    };
    let parser = parsed("%{{\nname: navbar\n}}");
    let parser = parse_custom(parser, &vec![Some(other)]).unwrap();
    assert_eq!(
        render_elements(&parser.ast.elements).unwrap().html,
        "<nav class=\"navbar\"><ul>\n<li class=\"navbar-item\" data-enabled=\"true\"><a href=\"/a/a.md.html\">a.md</a></li>\n</ul></nav>\n\n<br>\n"
    );
}

#[test]
fn pages() {
    assert_eq!(Template::get_template("Default"), Template::get_template("default"));
    assert!(Template::get_template("test").unwrap().starts_with("Test template"));
    assert_eq!(Template::get_template("other"), None);

    let page = render_one(parsed("Does default work?")).unwrap();
    assert_eq!(
        page,
        "<!DOCTYPE html>\n<html lang=\"\">\n\n<head>\n    <meta charset=\"utf-8\">\n    <meta http-equiv=\"X-UA-Compatible\" content=\"IE=edge\">\n    <meta name=\"viewport\" content=\"width=device-width,initial-scale=1.0\">\n    <meta name=\"head:count\" content=\"4\">\n    <title>test.md</title>\n</head>\n\n<body>\n    <p>Does default work?</p>\n\n\n</body>\n\n</html>\n"
    );

    let mut parser = parsed("a\n\n\nb ![p](./p.png)");
    let mut one = StrMap::new();
    one.insert("value_1", "test value 1".to_string());
    let mut two = StrMap::new();
    two.insert("value_2", "test value 2".to_string());
    parser.metadata.frontmatter.kind = Some("test".to_string());
    parser.metadata.frontmatter.values = Some(vec![one, two]);
    let mut renderer = Renderer::new(parser);
    assert_eq!(renderer.path, "/test/test.md");
    let out = renderer.render("").unwrap();
    assert_eq!(
        out,
        "Test template: test value 1 test value 2\n\n<p>a</p>\n<br>\n\n<p>b <img src=\"./p.png\" alt=\"p\"></p>\n\n"
    );
    assert_eq!(renderer.output, out);
    assert_eq!(renderer.asset_list, vec!["./p.png".to_string()]);

    let mut parser = parsed("a");
    parser.metadata.frontmatter.kind = Some("no such kind".to_string());
    assert_eq!(render_one(parser), None);
}

#[test]
fn dots_lead_up() {
    assert_eq!(get_dot_number(0), 0);
    assert_eq!(get_dot_number(1), 0);
    assert_eq!(get_dot_number(3), 2);
    assert_eq!(get_dots(0), "");
    assert_eq!(get_dots(1), "");
    assert_eq!(get_dots(2), "..");
    assert_eq!(get_dots(4), "../../..");
}

#[test]
fn a_custom_element_brings_its_template() {
    let parser = parsed("%{{\nname: footer\nkey: value\n---\nthe body\n}}\ntext");
    let parser = parse_custom(parser, &vec![]).unwrap();
    let template = Template::try_from(&parser.ast.elements[0]).unwrap();
    assert_eq!(template.template, "<h1>Test template</h1>");
    assert_eq!(template.values.get("key"), Some(&"value".to_string()));
    assert_eq!(template.body, Some(&"the body".to_string()));
    assert!(template.elements.is_empty() && template.asset_list.is_empty());
    assert!(Template::try_from(&parser.ast.elements[1]).is_err());
    let plain = parsed("%{{\nname: nothing\n}}");
    assert!(Template::try_from(&plain.ast.elements[0]).is_err());
}

#[test]
fn assets_are_moved_once_there_is_output() {
    let mut renderer = Renderer::new(parsed("![p](./p.png)"));
    assert_eq!(renderer.move_assets(), None);
    renderer.render("").unwrap();
    assert_eq!(renderer.move_assets(), Some(&vec!["./p.png".to_string()]));
}

#[test]
fn single_elements() {
    let html = |kind: ElementKind| kind.render().unwrap();
    assert_eq!(html(ElementKind::Paragraph), "<p></p>");
    assert_eq!(html(ElementKind::Bold), "<b></b>");
    assert_eq!(html(ElementKind::Italic), "<i></i>");
    assert_eq!(html(ElementKind::Blockquote), "<blockquote></blockquote>");
    assert_eq!(html(ElementKind::Text { text: "this is a test".to_string() }), "this is a test");
    assert_eq!(
        html(ElementKind::Link { text: "test".to_string(), link: "example.com".to_string() }),
        "<a href=\"example.com\" target=\"_blank\">test</a>"
    );
    assert_eq!(
        html(ElementKind::Filelink { text: "t".to_string(), link: "l".to_string() }),
        "<img src=\"l\" alt=\"t\">"
    );
    assert_eq!(html(ElementKind::ListItem { level: 2 }), "<li class=\"level-2\"></li>");
    assert_eq!(
        html(ElementKind::NumList { level: -1, num: "3".to_string() }),
        "<li class=\"level--1\">3.</li>"
    );
    assert_eq!(
        html(ElementKind::InlineCode { code: "x".to_string() }),
        "<div class=\"inline-code\">x</div>"
    );
    assert_eq!(html(ElementKind::HorizontalRule), "<hr>");
    assert_eq!(html(ElementKind::LineBreak), "<br>");
    assert_eq!(html(ElementKind::Header { level: 1 }), "");
    assert_eq!(html(ElementKind::CustomElm), "");
    assert_eq!(html(ElementKind::InlineLaTeX { tex: "x".to_string() }), "");
    let code = html(ElementKind::Blockcode {
        code: "fn test() {\n\tprintln!(\"Test\")\n}".to_string(),
        lang: "rust".to_string(),
    });
    assert!(code.starts_with("<pre style="));
    let e = HtmlElement::new(ElementKind::Bold, vec![HtmlElement::new(ElementKind::Italic, vec![])]);
    assert_eq!(e.inside.len(), 1);
    assert!(matches!(e.kind, ElementKind::Bold));
}
