use bismuth::config::{Addons, Config, Theme, TomlConfig, WebsiteConfig};
use bismuth::custom::{CustomElm, CustomElmError};
use bismuth::dump::{format_kind, render_element, sort_hm};
use bismuth::error_ui::{error_ui, Key, ReturnType, State};
use bismuth::frontmatter::{FrontMatter, Metadata};
use bismuth::lexer::MarkdownFile;
use bismuth::parser::Parser;
use bismuth::prompt::{
    answer, calc_move, handle_key, index_above, index_below, is_no, is_yes, Input, InputKey,
    OptionElement, ResultType, YesNo,
};
use bismuth::site::{is_markdown, resolve_all, run_lexer, run_parser};
use bismuth::strmap::StrMap;
use bismuth::text::{i32_to_string, usize_to_string};
use bismuth::tree::{Element, ElementError, Kind};

fn map(pairs: &[(&str, &str)]) -> StrMap {
    let mut m = StrMap::new();
    for (k, v) in pairs {
        m.insert(k, v.to_string());
    }
    m
}

#[test]
fn gen_css() {
    let toml = TomlConfig {
        website: WebsiteConfig { name: String::from("test"), std: true },
        theme: None,
        addons: None,
    }
    .with_defaults();
    let theme = toml.theme.unwrap().fill_default();
    let result = Config {
        name: String::new(),
        theme,
        addons: Addons { templates: None, plugins: None },
        directory: "./".to_string(),
        bstd: true,
    }
    .gen_colors();

    let expected = String::from(
        r":root {
    --background-1: #282828;
    --background-2: #3c3836;
    --background-3: #1d2021;
    --text-1: #ebdbb2;
    --text-2: #a89984;
    --link: #fe8018;
    --link-hover: #d65d0e;
}",
    );
    assert_eq!(expected, result)
}

#[test]
fn theme_defaults_keep_what_is_named() {
    let color = String::from("#fefefe");
    let mut theme = Theme::empty();
    theme.background_1 = Some(color.clone());
    theme.link = Some(color.clone());
    let theme = theme.fill_default();
    assert_eq!(theme.background_1, Some(color.clone()));
    assert_eq!(theme.background_2, Some("#3c3836".to_string()));
    assert_eq!(theme.link, Some(color));
    assert_eq!(theme.link_hover, Some("#d65d0e".to_string()));
    let config = Config::new(
        "/site",
        TomlConfig {
            website: WebsiteConfig { name: "n".to_string(), std: false },
            theme: Some(theme),
            addons: None,
        },
    );
    assert_eq!(config.name, "n");
    assert_eq!(config.directory, "/site");
    assert!(!config.bstd);
    assert!(config.gen_colors().contains("--link: #fefefe;"));
    let empty = Config::new(
        "/site",
        TomlConfig { website: WebsiteConfig { name: "n".to_string(), std: false }, theme: None, addons: None },
    );
    assert!(empty.gen_colors().starts_with(":root {\n    --background-1: ;\n"));
}

#[test]
fn numbers_as_text() {
    for n in [0usize, 7, 10, 99, 100, 12345, usize::MAX] {
        assert_eq!(usize_to_string(n), n.to_string());
    }
    for n in [0i32, 5, -5, 10, -10, i32::MAX, i32::MIN] {
        assert_eq!(i32_to_string(n), n.to_string());
    }
}

#[test]
fn maps_keep_the_order_of_their_keys() {
    let mut m = map(&[("b", "1"), ("a", "2")]);
    m.insert("b", "3".to_string());
    assert_eq!(m.len(), 2);
    assert_eq!((m.key_at(0).as_str(), m.value_at(0).as_str()), ("b", "3"));
    assert_eq!((m.key_at(1).as_str(), m.value_at(1).as_str()), ("a", "2"));
    assert_eq!(m.get("a"), Some(&"2".to_string()));
    assert_eq!(m.get("c"), None);
    assert!(m.contains_key("b"));
    assert!(!m.contains_key("B"));
    assert!(!m.is_empty());
    assert_eq!(m.copy(), m);
}

#[test]
fn custom_blocks() {
    let c = CustomElm::from_string("name: me\nvalue: not a key").unwrap();
    assert_eq!(c.name, "me");
    assert_eq!(c.values, map(&[("value", "not a key")]));
    assert_eq!(c.body, None);

    let c = CustomElm::from_string("name: me\nvalue: not a key\n---\nthis is the body").unwrap();
    assert_eq!(c.body, Some("this is the body".to_string()));

    let c = CustomElm::from_string(
        "name: this is a test name with --- dashes\nkey: value\ntext: this is a test \\n\n---\n<p>this is the body text</p>",
    )
    .unwrap();
    assert_eq!(c.name, "this is a test name with --- dashes");
    assert_eq!(c.values, map(&[("key", "value"), ("text", "this is a test \\n")]));
    assert_eq!(c.body, Some("<p>this is the body text</p>".to_string()));

    let c = CustomElm::from_string("b: 1\nNaMe: x\na: 2\n---\n---\nrest\n").unwrap();
    assert_eq!(c.name, "x");
    assert_eq!(c.values, map(&[("a", "2"), ("b", "1")]));
    assert_eq!(c.body, Some("---\nrest\n".to_string()));

    let c = CustomElm::from_string("name: a---\nk: v").unwrap();
    assert_eq!(c.name, "a---");
    assert_eq!(c.body, None);

    assert!(matches!(CustomElm::from_string("key: value"), Err(CustomElmError::NoName)));
    assert!(matches!(CustomElm::from_string("name: [a"), Err(CustomElmError::YamlParse(_))));
    assert!(matches!(CustomElm::from_string("---\nname: a"), Err(CustomElmError::NoName)));
    assert!(matches!(CustomElm::from_parts(vec![], None), Err(CustomElmError::NoName)));
    let c = CustomElm::from_parts(
        vec![
            ("x".to_string(), "1".to_string()),
            ("NAME".to_string(), "first".to_string()),
            ("name".to_string(), "second".to_string()),
        ],
        Some("b".to_string()),
    )
    .unwrap();
    assert_eq!(c.name, "first");
    assert_eq!(c.values, map(&[("x", "1"), ("name", "second")]));
    assert_eq!(c.body, Some("b".to_string()));
    assert_eq!(c.clone(), c);
    assert_eq!(CustomElm::new().name, "");
}

#[test]
fn front_matter_merges_what_is_defined() {
    let mut fm = FrontMatter::new("/dir/file.md");
    assert_eq!(fm.get_title(), Some(&"file.md".to_string()));
    assert_eq!(fm.get_path(), Some(&"/dir/file.md".to_string()));
    assert_eq!(fm.get_kind(), Some(&"default".to_string()));
    assert_eq!(fm.get_values(), None);
    assert_eq!(fm.get_value("a"), None);

    let block = || FrontMatter {
        title: Some("this is a title".to_string()),
        path: None,
        kind: None,
        values: Some(vec![map(&[("value-1", "test")]), map(&[("value-2", "test 2"), ("value-1", "again")])]),
    };
    fm.update(block());
    let once = fm.clone();
    assert_eq!(fm.get_title(), Some(&"this is a title".to_string()));
    assert_eq!(fm.get_path(), Some(&"/dir/file.md".to_string()));
    assert_eq!(fm.get_kind(), Some(&"default".to_string()));
    assert_eq!(fm.get_value("value-1"), Some(&"test".to_string()));
    assert_eq!(fm.get_value("value-2"), Some(&"test 2".to_string()));
    assert_eq!(fm.get_values(), Some(map(&[("value-1", "again"), ("value-2", "test 2")])));
    fm.update(block());
    assert_eq!(fm, once);

    fm.update(FrontMatter { title: None, path: Some("/p".to_string()), kind: Some("test".to_string()), values: None });
    assert_eq!(fm.get_title(), Some(&"this is a title".to_string()));
    assert_eq!(fm.get_path(), Some(&"/p".to_string()));
    assert_eq!(fm.get_kind(), Some(&"test".to_string()));
    assert_eq!(fm.get_value("value-2"), Some(&"test 2".to_string()));

    let mut bare = FrontMatter { title: None, path: None, kind: None, values: None };
    bare.fill_defaults();
    assert_eq!(bare.kind, Some("default".to_string()));
    assert_eq!(FrontMatter::from_parts(None, "x").title, None);
    assert_eq!(Metadata::new("/a/b.md").absolute_path, "/a/b.md");
}

#[test]
fn elements() {
    let mut e = Element::with_id(Kind::Paragraph, 5);
    assert_eq!(e.get_id(), 5);
    assert_eq!(e.get_text(), Err(ElementError::GetTextError));
    assert_eq!(e.get_attr("a"), Err(ElementError::GetAttrError("a".to_string())));
    e.add_attr("a", "1");
    e.add_attr("a", "2");
    assert_eq!(e.get_attr("a"), Ok(&"2".to_string()));
    e.text = Some("t".to_string());
    assert_eq!(e.get_text(), Ok(&"t".to_string()));
    let kid = e.append_node(Element::with_id(Kind::Text, 6)).get_id();
    assert_eq!(kid, 6);
    assert_eq!(e.get_elements().len(), 1);
    assert_eq!(e.child_position(6), Some(0));
    assert_eq!(e.child_position(7), None);
    e.push_at_path(&vec![9, 6], 0, Element::with_id(Kind::Bold, 7));
    assert_eq!(e.elements[0].elements[0].id, 7);
    e.push_at_path(&vec![9], 0, Element::with_id(Kind::Bold, 8));
    assert_eq!(e.elements[1].id, 8);
    assert_eq!(e.clone(), e);
    let a = Element::new(Kind::Text);
    assert_eq!(a.kind, Kind::Text);
    assert!(a.elements.is_empty() && a.text.is_none() && a.attrs.is_empty());
}

#[test]
fn the_choice_among_options() {
    let mut state = State::new(vec!["a".to_string(), "b".to_string()]);
    assert_eq!((state.position, state.max), (2, 2));
    assert_eq!(state.get_option(1), "b");
    assert_eq!(state.get_option(2), "");
    state.handle_option(0);
    assert_eq!(state.update_options(Key::Up), (None, None));
    assert_eq!(state.update_options(Key::Down), (None, None));
    assert_eq!(state.position, 2);
    assert_eq!(state.update_options(Key::Other), (None, None));
    assert_eq!(state.update_options(Key::Enter), (Some(ReturnType::RunOption(2)), None));
    assert_eq!(state.update_options(Key::Quit), (Some(ReturnType::Quit), None));
    state.position = 1;
    let drawn = state.go_up().unwrap();
    assert_eq!((drawn.plain.as_str(), drawn.marked.as_str()), ("b", "a"));
    assert_eq!(state.position, 2);
    state.position = 3;
    let drawn = state.go_down().unwrap();
    assert_eq!((drawn.plain.as_str(), drawn.marked.as_str()), ("b", ""));
    assert_eq!(state.position, 2);
    assert_eq!(error_ui(ReturnType::Quit), None);
    assert_eq!(error_ui(ReturnType::RunOption(4)), Some(4));
}

#[test]
fn prompts() {
    let options = vec![
        OptionElement { promt_value: "a".to_string(), promt_description: None },
        OptionElement { promt_value: "b".to_string(), promt_description: Some("d".to_string()) },
        OptionElement { promt_value: "c".to_string(), promt_description: None },
    ];
    assert_eq!(calc_move(0, 0, &options), 0);
    assert_eq!(calc_move(0, 1, &options), -1);
    assert_eq!(calc_move(0, 2, &options), -3);
    assert_eq!(calc_move(2, 0, &options), 3);
    assert_eq!(calc_move(3, 1, &options), 3);
    assert_eq!(index_above(0, 3), 2);
    assert_eq!(index_above(2, 3), 1);
    assert_eq!(index_below(2, 3), 0);
    assert_eq!(index_below(0, 3), 1);

    for yes in ["yes", "y", "YES", "Y", "yEs"] {
        assert!(is_yes(yes) && !is_no(yes));
    }
    for no in ["no", "n", "NO", "N"] {
        assert!(is_no(no) && !is_yes(no));
    }
    for other in ["", "ye", "yess", "maybe"] {
        assert!(!is_yes(other) && !is_no(other));
    }
    assert!(matches!(answer(&ResultType::Bool(None), "Y".to_string()), ResultType::Bool(Some(true))));
    assert!(matches!(answer(&ResultType::Bool(None), "x".to_string()), ResultType::Bool(Some(false))));
    assert!(matches!(answer(&ResultType::Other(None), "x".to_string()), ResultType::Other(Some(s)) if s == "x"));

    assert_eq!(handle_key(InputKey::Enter, "ab"), (None, false));
    assert_eq!(handle_key(InputKey::Escape, "ab"), (None, true));
    assert_eq!(handle_key(InputKey::Char('c'), "ab"), (Some("abc".to_string()), false));
    assert_eq!(handle_key(InputKey::Backspace, "ab"), (Some("a".to_string()), false));
    assert_eq!(handle_key(InputKey::Backspace, ""), (Some(String::new()), false));
    assert_eq!(handle_key(InputKey::Other, "ab"), (Some("ab".to_string()), false));

    let mut q = YesNo::new("q?".to_string(), "why".to_string(), Some("bye".to_string()));
    assert_eq!(q.result, None);
    assert_eq!(q.get_prompter().title, "q?");
    assert_eq!(q.get_prompter().description, Some("why".to_string()));
    assert!(matches!(q.get_result_type(), ResultType::Bool(None)));
    assert_eq!(q.set_result(ResultType::Other(Some("x".to_string()))), Some("bye".to_string()));
    assert_eq!(q.result, None);
    assert_eq!(q.set_result(ResultType::Bool(Some(true))), Some("bye".to_string()));
    assert_eq!(q.result, Some(true));
    assert_eq!(q.set_default(), Some("bye".to_string()));
    assert_eq!(q.result, Some(false));
}

#[test]
fn the_documents_of_a_site() {
    for ending in ["md", "MD", "markdown", "MarkDown"] {
        assert!(is_markdown(ending));
    }
    for ending in ["", "m", "mdx", "txt", "markdow"] {
        assert!(!is_markdown(ending));
    }
    let file = |path: &str, content: &str| MarkdownFile { content: content.to_string(), path: path.to_string() };
    let lexers = run_lexer(vec![file("/a.md", "# a\r\n"), file("/b.md", "%{{\nname: footer\n}}\n")]).unwrap();
    assert_eq!(lexers.len(), 2);
    assert_eq!(lexers[0].path, "/a.md");
    assert_eq!(lexers[0].chars.len(), 4);
    let parsers = run_parser(lexers).unwrap();
    assert_eq!(parsers[1].metadata.absolute_path, "/b.md");
    assert!(!parsers[0].has_custom && parsers[1].has_custom);
    let done = resolve_all(parsers).unwrap();
    assert_eq!(done.len(), 2);
    match &done[1].ast.elements[0].kind {
        Kind::CustomElement(c) => assert_eq!(c.template, Some("<h1>Test template</h1>".to_string())),
        k => panic!("{k:?}"),
    }

    let failed = run_lexer(vec![file("/a.md", "a"), file("/b.md", "---\nnever closed"), file("/c.md", "")]);
    assert!(matches!(failed, Err((1, bismuth::lex_model::LexerError::FrontmatterError))));
    let lexers = run_lexer(vec![file("/a.md", "a"), file("/b.md", "%{{\nnoname: x\n}}\n")]).unwrap();
    assert!(matches!(run_parser(lexers), Err((1, _))));
    assert!(run_lexer(vec![]).unwrap().is_empty());
}

#[test]
fn every_document_sees_the_others() {
    let mut a = Parser::new_test("/a", "%{{\nname: navbar\n}}").unwrap();
    a.parse().unwrap();
    let mut b = Parser::new_test("/b", "%{{\nname: navbar\n}}").unwrap();
    b.parse().unwrap();
    b.metadata.frontmatter.values = Some(vec![map(&[("navbar_include", "true")]), map(&[("navbar_order", "3")])]);
    let done = resolve_all(vec![a, b]).unwrap();
    let entries = |p: &Parser| p.ast.elements[0].elements[0].elements.len();
    assert_eq!(entries(&done[0]), 1);
    assert_eq!(entries(&done[1]), 1);
    match &done[0].ast.elements[0].elements[0].elements[0].kind {
        Kind::CustomElement(c) => {
            assert_eq!(c.values.get("enabled"), Some(&"true".to_string()));
            assert_eq!(c.values.get("url"), Some(&"b/b.html".to_string()));
        }
        k => panic!("{k:?}"),
    }
    match &done[1].ast.elements[0].elements[0].elements[0].kind {
        Kind::CustomElement(c) => assert_eq!(c.values.get("enabled"), Some(&"false".to_string())),
        k => panic!("{k:?}"),
    }
}

#[test]
fn the_tree_written_out() {
    assert_eq!(sort_hm(&map(&[])), "[]");
    assert_eq!(
        sort_hm(&map(&[("b", "1"), ("a", "2"), ("ab", "\"q\""), ("B", "")])),
        "[(\"B\", \"\"), (\"a\", \"2\"), (\"ab\", \"\\\"q\\\"\"), (\"b\", \"1\")]"
    );
    assert_eq!(format_kind(&Kind::BlockLaTeX), "BlockLaTeX");
    let custom = CustomElm::from_string("name: n\nk: v\n---\nb").unwrap();
    assert_eq!(
        format_kind(&Kind::CustomElement(custom)),
        "Custom{Name: n, Body: Some(\"b\"), Values: [(\"k\", \"v\")], Template: None}"
    );
    let mut parser = Parser::new_test("/t.md", "# a").unwrap();
    parser.parse().unwrap();
    assert_eq!(
        render_element(&parser.ast.elements[0], 0),
        "Element{\n    Kind: \"Header\",\n    Text: None,\n    Attrs: [(\"level\", \"1\")],\n    Elements: [\n    Element{\n        Kind: \"Text\",\n        Text: Some(\" a\"),\n        Attrs: [],\n        Elements: [\n        ])\n    },\n    ])\n}"
    );
}

#[test]
fn attributes_are_changed_in_place() {
    let mut e = Element::with_id(Kind::Header, 1);
    e.add_attr("level", "1");
    e.add_attr("other", "x");
    e.get_attr_mut("level").unwrap().push('0');
    assert_eq!(e.get_attr("level"), Ok(&"10".to_string()));
    assert_eq!(e.get_attr("other"), Ok(&"x".to_string()));
    assert_eq!(e.get_attr_mut("none"), Err(ElementError::GetAttrError("none".to_string())));
    let mut m = map(&[("a", "1")]);
    *m.get_mut("a").unwrap() = "2".to_string();
    assert_eq!(m, map(&[("a", "2")]));
    assert!(m.get_mut("b").is_none());
    let state = bismuth::parser::State::default();
    assert!(state.new_line && state.inside.is_empty() && state.indent_level == 0);
}
