use bismuth::frontmatter::FrontMatter;
use bismuth::parser::Parser;
use bismuth::plugins::{match_plugin, match_template, parse_int, PluginKind};
use bismuth::resolve::{get_customs, parse_custom, Custom};
use bismuth::strmap::StrMap;
use bismuth::tree::{Element, Kind};

fn parsed(path: &str, content: &str) -> Parser {
    let mut parser = Parser::new_test(path, content).unwrap();
    parser.parse().unwrap();
    parser
}

fn values(pairs: &[(&str, &str)]) -> Option<Vec<StrMap>> {
    let mut out = Vec::new();
    for (k, v) in pairs {
        let mut m = StrMap::new();
        m.insert(k, v.to_string());
        out.push(m);
    }
    Some(out)
}

fn page(path: &str, title: &str, pairs: &[(&str, &str)]) -> Parser {
    let mut parser = parsed(path, "text");
    parser.metadata.frontmatter = FrontMatter {
        title: Some(title.to_string()),
        path: Some(path.to_string()),
        kind: Some("default".to_string()),
        values: values(pairs),
    };
    parser
}

fn custom_of(e: &Element) -> (&str, Vec<(String, String)>, Option<&String>) {
    match &e.kind {
        Kind::CustomElement(c) => {
            let mut pairs = Vec::new();
            let mut i = 0;
            while i < c.values.len() {
                pairs.push((c.values.key_at(i).clone(), c.values.value_at(i).clone()));
                i += 1;
            }
            (c.name.as_str(), pairs, c.template.as_ref())
        }
        k => panic!("{k:?}"),
    }
}

fn pairs(list: &[(&str, &str)]) -> Vec<(String, String)> {
    list.iter().map(|(k, v)| (k.to_string(), v.to_string())).collect()
}

fn all_ids(e: &Element, out: &mut Vec<u32>) {
    out.push(e.id);
    for c in &e.elements {
        all_ids(c, out);
    }
}

#[test]
fn get_customs_test() {
    let parser = parsed("/test/test.md", "%{{\nname: test\nother: key\n}}");

    let custom_ids = get_customs(&parser.ast.elements, vec![]);
    let customs = custom_ids
        .iter()
        .map(|id| parser.ast.find(*id).unwrap().clone())
        .collect::<Vec<Element>>();
    assert_eq!(customs.len(), 1);
    assert_eq!(customs[0].id, parser.ast.elements[0].id);
    assert_eq!(custom_of(&customs[0]), ("test", pairs(&[("other", "key")]), None));
}

#[test]
fn get_customs_walks_the_tree_in_order() {
    let mut root = Element::with_id(Kind::Paragraph, 1);
    let mut a = Element::with_id(Kind::CustomElement(bismuth::custom::CustomElm::new()), 2);
    a.append_node(Element::with_id(Kind::CustomElement(bismuth::custom::CustomElm::new()), 3));
    a.append_node(Element::with_id(Kind::Text, 4));
    root.append_node(a);
    root.append_node(Element::with_id(Kind::CustomElement(bismuth::custom::CustomElm::new()), 5));
    let list = vec![root, Element::with_id(Kind::CustomElement(bismuth::custom::CustomElm::new()), 6)];
    assert_eq!(get_customs(&list, vec![9]), vec![9, 2, 3, 5, 6]);
}

#[test]
fn a_document_without_custom_elements_is_handed_back() {
    let parser = parsed("/test/test.md", "# a\ntext");
    let before = format!("{:?}", parser.ast);
    let issued = parser.ids_issued;
    let parser = parse_custom(parser, &vec![]).unwrap();
    assert_eq!(format!("{:?}", parser.ast), before);
    assert_eq!(parser.ids_issued, issued);
}

#[test]
fn unknown_names_are_left_alone() {
    let parser = parsed("/test/test.md", "%{{\nname: nothing\nkey: value\n}}");
    let before = format!("{:?}", parser.ast);
    let parser = parse_custom(parser, &vec![]).unwrap();
    assert_eq!(format!("{:?}", parser.ast), before);
}

#[test]
fn a_template_is_set_and_a_second_run_changes_nothing() {
    let parser = parsed("/test/test.md", "%{{\nname: footer\n}}\n, this is a test \n%{{\nname: footer\nkey: value\n}}");
    let parser = parse_custom(parser, &vec![]).unwrap();
    let customs: Vec<&Element> =
        parser.ast.elements.iter().filter(|e| matches!(e.kind, Kind::CustomElement(_))).collect();
    assert_eq!(customs.len(), 2);
    let template = "<h1>Test template</h1>".to_string();
    assert_eq!(custom_of(customs[0]), ("footer", vec![], Some(&template)));
    assert_eq!(custom_of(customs[1]), ("footer", pairs(&[("key", "value")]), Some(&template)));
    assert!(customs[0].elements.is_empty());

    let once = format!("{:?}", parser.ast);
    let issued = parser.ids_issued;
    let parser = parse_custom(parser, &vec![]).unwrap();
    assert_eq!(format!("{:?}", parser.ast), once);
    assert_eq!(parser.ids_issued, issued);
}

#[test]
fn navbar_lists_the_pages_in_order() {
    let others = vec![
        Some(page("/b", "b.md", &[("navbar_include", "TRUE"), ("navbar_order", "2"), ("title", "Bee")])),
        None,
        Some(page("/skip", "skip.md", &[("navbar_include", "no"), ("navbar_order", "0")])),
        Some(page("a", "a.md", &[("navbar_order", "-1"), ("navbar_include", "true"), ("navbar_title", "Ay"), ("title", "not this")])),
        Some(page("/c", "c.md", &[("navbar_include", "true"), ("navbar_order", "2")])),
        Some(page("/d", "d.md", &[("navbar_include", "true"), ("navbar_order", "x")])),
    ];
    let mut target = parsed("/own", "%{{\nname: navbar\n}}");
    target.metadata.frontmatter = FrontMatter {
        title: Some("own.md".to_string()),
        path: Some("/own".to_string()),
        kind: Some("default".to_string()),
        values: values(&[("navbar_include", "true"), ("navbar_order", "1")]),
    };
    let target = parse_custom(target, &others).unwrap();

    let nav = &target.ast.elements[0];
    assert_eq!(custom_of(nav), ("navbar", vec![], None));
    assert_eq!(nav.elements.len(), 1);
    let wrapper = &nav.elements[0];
    let wrapper_template = match_template("bismuth_navbar_wrapper").unwrap().content;
    let item_template = match_template("bismuth_navbar_item").unwrap().content;
    assert_eq!(custom_of(wrapper), ("bismuth_navbar_wrapper", vec![], Some(&wrapper_template)));
    let items: Vec<_> = wrapper.elements.iter().map(custom_of).collect();
    assert_eq!(
        items,
        vec![
            ("bismuth_navbar_item", pairs(&[("title", "Ay"), ("enabled", "true"), ("url", "a/a.md.html")]), Some(&item_template)),
            ("bismuth_navbar_item", pairs(&[("title", "d.md"), ("enabled", "true"), ("url", "d/d.md.html")]), Some(&item_template)),
            ("bismuth_navbar_item", pairs(&[("title", "own.md"), ("enabled", "false"), ("url", "own/own.md.html")]), Some(&item_template)),
            ("bismuth_navbar_item", pairs(&[("title", "Bee"), ("enabled", "true"), ("url", "b/b.md.html")]), Some(&item_template)),
            ("bismuth_navbar_item", pairs(&[("title", "c.md"), ("enabled", "true"), ("url", "c/c.md.html")]), Some(&item_template)),
        ]
    );

    let mut ids = Vec::new();
    for e in &target.ast.elements {
        all_ids(e, &mut ids);
    }
    let mut unique = ids.clone();
    unique.sort();
    unique.dedup();
    assert_eq!(unique.len(), ids.len());
}

#[test]
fn blog_list_lists_the_posts_of_a_directory() {
    let others = vec![
        Some(page("/blog", "one.md", &[("title", "One"), ("date", "2020")])),
        Some(page("/other", "x.md", &[("title", "X"), ("date", "2021")])),
        None,
        Some(page("blog", "two.md", &[("date", "2022")])),
        Some(page("blog/", "three.md", &[("title", "Three")])),
    ];
    let target = parsed("/own", "%{{\nname: bloglist\ndir: /blog\n}}");
    let target = parse_custom(target, &others).unwrap();

    let list = &target.ast.elements[0];
    assert_eq!(custom_of(list), ("bloglist", pairs(&[("dir", "/blog")]), None));
    assert_eq!(list.elements.len(), 1);
    let wrapper = &list.elements[0];
    let wrapper_template = match_template("builtin_blog_wrapper").unwrap().content;
    let item_template = match_template("builtin_blogitem").unwrap().content;
    assert_eq!(custom_of(wrapper), ("builtin_blog_wrapper", vec![], Some(&wrapper_template)));
    let items: Vec<_> = wrapper.elements.iter().map(custom_of).collect();
    assert_eq!(
        items,
        vec![
            ("builtin_blogitem", pairs(&[("title", "One"), ("date", "2020"), ("url", "/blog/one.md.html")]), Some(&item_template)),
            ("builtin_blogitem", pairs(&[("title", ""), ("date", "2022"), ("url", "blog/two.md.html")]), Some(&item_template)),
        ]
    );
}

#[test]
fn names_of_plugins_and_templates() {
    assert!(matches!(match_plugin("navbar"), Some(PluginKind::Navbar(_))));
    for name in ["blog list", "blogs", "bloglist"] {
        assert!(matches!(match_plugin(name), Some(PluginKind::BlogList(_))));
    }
    for name in ["Navbar", "footer", "", "blog"] {
        assert!(match_plugin(name).is_none());
    }
    assert_eq!(match_template("footer").unwrap().content, "<h1>Test template</h1>");
    for name in ["navbar", "bloglist", "Footer", ""] {
        assert!(match_template(name).is_none());
    }
    let mut custom = Custom::new("footer".to_string(), StrMap::new(), None, 7);
    custom.find();
    assert!(custom.plugin.is_none());
    assert_eq!(custom.template.unwrap().content, "<h1>Test template</h1>");
}

#[test]
fn integers_of_texts() {
    assert_eq!(parse_int("0"), Some(0));
    assert_eq!(parse_int("42"), Some(42));
    assert_eq!(parse_int("+7"), Some(7));
    assert_eq!(parse_int("-13"), Some(-13));
    assert_eq!(parse_int("2147483647"), Some(i32::MAX));
    assert_eq!(parse_int("-2147483648"), Some(i32::MIN));
    assert_eq!(parse_int("0000000000000000000012"), Some(12));
    for bad in ["", "-", "+", "2147483648", "-2147483649", "1 ", " 1", "1a", "99999999999999999999999"] {
        assert_eq!(parse_int(bad), None, "{bad:?}");
        assert_eq!(bad.parse::<i32>().ok(), None);
    }
}
