use bismuth::frontmatter::FrontMatter;
use bismuth::parser::Parser;
use bismuth::render::{highlight, Template};
use bismuth::strmap::StrMap;

fn text_of(value: Option<&serde_yaml::Value>) -> Option<String> {
    value.and_then(|v| v.as_str()).map(|s| s.to_string())
}

fn front_matter(yaml: &str) -> FrontMatter {
    let value: serde_yaml::Value = serde_yaml::from_str(yaml).unwrap();
    let values = value.get("values").and_then(|v| v.as_sequence()).map(|maps| {
        maps.iter()
            .map(|m| {
                let mut out = StrMap::new();
                for (k, v) in m.as_mapping().unwrap() {
                    out.insert(k.as_str().unwrap(), v.as_str().unwrap().to_string());
                }
                out
            })
            .collect::<Vec<StrMap>>()
    });
    FrontMatter {
        title: text_of(value.get("title")),
        path: text_of(value.get("path")),
        kind: text_of(value.get("kind")),
        values,
    }
}

fn update_from_str(fm: &mut FrontMatter, yaml: &str) {
    fm.update(front_matter(yaml));
}

fn empty() -> FrontMatter {
    FrontMatter { title: None, path: None, kind: None, values: None }
}

fn one(key: &str, value: &str) -> StrMap {
    let mut m = StrMap::new();
    m.insert(key, value.to_string());
    m
}

#[test]
fn test_load() {
    let mut fm = empty();
    let s_fm = "title: Test\npath: /test\nkind: test\nvalues:\n    - test: te";
    update_from_str(&mut fm, s_fm);

    assert_eq!(
        fm,
        FrontMatter {
            title: Some("Test".to_string()),
            path: Some("/test".to_string()),
            kind: Some("test".to_string()),
            values: Some(vec![one("test", "te")]),
        }
    );
}

#[test]
fn test_load_1() {
    let mut fm = FrontMatter { path: Some("/path/test".to_string()), ..empty() };
    let s_fm = "title: this is a title\nkind: This is another test";
    update_from_str(&mut fm, s_fm);

    assert_eq!(
        fm,
        FrontMatter {
            title: Some("this is a title".to_string()),
            path: Some("/path/test".to_string()),
            kind: Some("This is another test".to_string()),
            values: None,
        }
    );
}

#[test]
fn test_load_2() {
    let mut fm = FrontMatter { path: Some("/path/test".to_string()), ..empty() };
    let s_fm = "title: this is a title\nvalues:\n    - value-1: test\n    - value-2: test 2";
    update_from_str(&mut fm, s_fm);

    assert_eq!(
        fm,
        FrontMatter {
            title: Some("this is a title".to_string()),
            path: Some("/path/test".to_string()),
            kind: Some("default".to_string()),
            values: Some(vec![one("value-1", "test"), one("value-2", "test 2")]),
        }
    );
}

fn init_parser(content: &str, frontmatter: &str) -> Parser {
    let mut parser = Parser::new_test("/test/", content).unwrap();
    update_from_str(&mut parser.metadata.frontmatter, frontmatter);

    parser.parse().unwrap();
    parser
}

#[test]
fn mod_test() {
    let parser = init_parser(
        "{value} {another_value}",
        "
            values:
                - value: test
                - another_value: test another value
            ",
    );
    let values = parser.metadata.frontmatter.get_values().unwrap();
    let template_text = String::from("test:\n {elements}");
    let mut template = Template::new(&template_text, &values, None, &parser.ast.elements);

    let s = template.render().unwrap();
    assert_eq!(s, "test:\n <p>test test another value</p>\n<br>\n");
}

#[test]
fn test_1() {
    let parser = init_parser(
        "{value}} {hmm}",
        "
            values:
                - value}: test
                - another_value: test another value
            ",
    );
    let values = parser.metadata.frontmatter.get_values().unwrap();
    let template_text = String::from("test:\n {elements}");
    let mut template = Template::new(&template_text, &values, None, &parser.ast.elements);

    let s = template.render().unwrap();
    assert_eq!(s, "test:\n <p>test {hmm}</p>\n<br>\n");
}

#[test]
fn test_2() {
    let parser = init_parser(
        "*test*",
        "
            kind: test
            values:
                - value_1: test
                - value_2: test another value
            ",
    );
    let name = parser.metadata.frontmatter.get_kind().unwrap();
    let values = parser.metadata.frontmatter.get_values().unwrap();
    let mut template =
        Template::new(Template::get_template(name).unwrap(), &values, None, &parser.ast.elements);

    let s = template.render().unwrap();
    assert_eq!(s, "Test template: test test another value\n<br>\n<i>test</i>\n<br>\n");
}

#[test]
fn code_test() {
    let code = "fn test() {\n\tlet a = 10;\n}".to_string();
    let html = highlight("rs".to_string(), code).unwrap();
    assert!(html.starts_with("<pre style=\"background-color:#"));
    assert!(html.contains("let"));
    assert!(html.ends_with("</pre>\n"));
}

#[test]
fn test_inline() {
    let code = "let test = 10".to_string();
    let html = highlight("rs".to_string(), code).unwrap();
    assert!(html.starts_with("<pre style=\"background-color:#"));
    assert!(html.contains("test"));
    assert_eq!(html.matches("<pre").count(), 1);
}
