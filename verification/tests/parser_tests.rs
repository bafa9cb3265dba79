use bismuth::lexer::{Lexer, MarkdownFile};
use bismuth::parser::{ParseError, Parser};
use bismuth::token::{Token, TokenType};
use bismuth::tree::{Ast, Element, Kind};

fn init_lexer(content: &str) -> Lexer {
    let mut l = Lexer::new_test("/test/test.md", content);
    l.run_lexer().unwrap();
    l
}

fn init_plain_lexer(content: &str) -> Lexer {
    let mut l = Lexer::new(MarkdownFile { content: content.to_string(), path: "/test/".to_string() });
    l.run_lexer().unwrap();
    l
}

#[derive(Debug, PartialEq)]
struct TestError {}

#[test]
fn advance_token_test() {
    let lexer = init_lexer("this is a test []");
    let mut parser = Parser::new(lexer);
    assert_eq!(
        &Token::new(TokenType::Text, "this is a test ".chars().collect::<Vec<char>>(), 0, 14),
        parser.advance_token().unwrap()
    );
    assert_eq!(
        &Token::new(TokenType::BracketRight, vec![']'], 16, 16),
        parser.advance_n_token(2).unwrap()
    );
    assert_eq!(
        &Token::new(TokenType::EndOfLine, vec!['\n'], 17, 17),
        parser.advance_token().unwrap()
    );
    assert_eq!(
        &Token::new(TokenType::EndOfFile, Vec::new(), 18, 18),
        parser.advance_token().unwrap()
    );

    assert_eq!(Err(TestError {}), parser.advance_token().map_err(|_| TestError {}));
}

#[test]
fn lib_advance_token_test() {
    let lexer = init_plain_lexer("this is a test []");
    let mut parser = Parser::new(lexer);
    assert_eq!(
        &Token::new(TokenType::Text, "this is a test ".chars().collect::<Vec<char>>(), 0, 14),
        parser.advance_token().unwrap()
    );
    assert_eq!(
        &Token::new(TokenType::BracketRight, vec![']'], 16, 16),
        parser.advance_n_token(2).unwrap()
    );
    assert_eq!(
        &Token::new(TokenType::EndOfFile, Vec::new(), 17, 17),
        parser.advance_token().unwrap()
    );

    assert_eq!(Err(TestError {}), parser.advance_token().map_err(|_| TestError {}));
}

#[test]
fn peek_till_test() {
    let lexer = init_lexer("this is a test []");
    let mut parser = Parser::new(lexer);
    // skip start of file
    parser.advance_token().unwrap();

    let r = parser.peek_till_kind(&TokenType::BracketRight).unwrap();
    let l = vec![
        Token::new(TokenType::Text, "this is a test ".chars().collect::<Vec<char>>(), 0, 14),
        Token::new(TokenType::BracketLeft, vec!['['], 15, 15),
    ];

    assert_eq!(l, r);
    let r = parser.peek_till(2).unwrap();

    assert_eq!(l, r);
}

#[test]
fn lib_peek_till_test() {
    let lexer = init_plain_lexer("this is a test []");
    let mut parser = Parser::new(lexer);
    // skip start of file
    parser.advance_token().unwrap();

    let r = parser.peek_till_kind(&TokenType::BracketRight).unwrap();
    let l = vec![
        Token::new(TokenType::Text, "this is a test ".chars().collect::<Vec<char>>(), 0, 14),
        Token::new(TokenType::BracketLeft, vec!['['], 15, 15),
    ];

    assert_eq!(l, r);
    let r = parser.peek_till(2).unwrap();

    assert_eq!(l, r);
}

#[test]
fn peek_pattern_test() {
    let lexer = init_lexer("this is a test \n[]\n, [[]]");
    let mut parser = Parser::new(lexer);
    // skip start of file
    parser.advance_token().unwrap();
    let pattern: Vec<TokenType> = vec![
        TokenType::EndOfLine,    // \n
        TokenType::BracketLeft,  // [
        TokenType::BracketRight, // ]
        TokenType::EndOfLine,    // \n
    ];

    let l = 2;
    let r = parser.peek_till_pattern(&pattern).unwrap();
    assert_eq!(l, r);

    let pattern_2: Vec<TokenType> = vec![
        TokenType::Text,
        TokenType::BracketLeft,
        TokenType::BracketLeft,
        TokenType::BracketRight,
        TokenType::BracketRight,
        TokenType::EndOfLine,
    ];
    let l = 6;
    let r = parser.peek_till_pattern(&pattern_2).unwrap();
    assert_eq!(l, r);

    let lexer = init_lexer("\ntest\n}}\ntest");
    let parser = Parser::new(lexer);

    let pattern_2: Vec<TokenType> = vec![
        TokenType::EndOfLine,
        TokenType::CurlybraceRight,
        TokenType::CurlybraceRight,
        TokenType::EndOfLine,
    ];

    let l = 3;
    let r = parser.peek_till_pattern(&pattern_2).unwrap();
    assert_eq!(l, r);

    let lexer = init_lexer("this is a test \n[]\n another line \n[]\n");
    let mut parser = Parser::new(lexer);

    parser.advance_n_token(4).unwrap();

    let l = 8;
    let r = parser.peek_till_pattern(&pattern).unwrap();
    assert_eq!(l, r);
}

#[test]
fn lib_peek_pattern_test() {
    let lexer = init_plain_lexer("this is a test \n[]\n");
    let mut parser = Parser::new(lexer);
    // skip start of file
    parser.advance_token().unwrap();
    let pattern: Vec<TokenType> = vec![
        TokenType::EndOfLine,    // \n
        TokenType::BracketLeft,  // [
        TokenType::BracketRight, // ]
        TokenType::EndOfLine,    // \n
    ];

    let l = 2;
    let r = parser.peek_till_pattern(&pattern).unwrap();
    assert_eq!(l, r);

    let lexer = init_plain_lexer("this is a test \n[]\n another line \n[]\n");
    let mut parser = Parser::new(lexer);

    parser.advance_n_token(4).unwrap();

    let l = 8;
    let r = parser.peek_till_pattern(&pattern).unwrap();
    assert_eq!(l, r);
}

#[test]
fn find() {
    let mut element1 = Element::new(Kind::Paragraph);
    let mut element2 = Element::new(Kind::Header);
    element2.id = 1;
    element1.id = 10;
    element1.elements = vec![Element::new(Kind::Text), element2.clone()];
    let mut ast = Ast {
        elements: vec![Element::new(Kind::Text), Element::new(Kind::Text), element1],
    };

    assert_eq!(&mut element2, ast.find_mut(1).unwrap());
    assert_eq!(&element2, ast.find(1).unwrap());
}

fn parse(content: &str) -> Parser {
    let mut parser = Parser::with_seed(init_plain_lexer(content), 100);
    parser.parse().unwrap();
    parser
}

fn shape(e: &Element) -> String {
    let name = match &e.kind {
        Kind::CustomElement(c) => format!("Custom<{}>", c.name),
        k => format!("{k:?}"),
    };
    let mut s = name;
    if let Some(t) = &e.text {
        s.push_str(&format!("{t:?}"));
    }
    let mut i = 0;
    while i < e.attrs.len() {
        s.push_str(&format!("{{{}={}}}", e.attrs.key_at(i), e.attrs.value_at(i)));
        i += 1;
    }
    if !e.elements.is_empty() {
        let inner: Vec<String> = e.elements.iter().map(shape).collect();
        s.push_str(&format!("[{}]", inner.join(", ")));
    }
    s
}

fn shapes(parser: &Parser) -> Vec<String> {
    parser.ast.elements.iter().map(shape).collect()
}

fn ids(e: &Element, out: &mut Vec<u32>) {
    out.push(e.id);
    for c in &e.elements {
        ids(c, out);
    }
}

#[test]
fn end_to_end_example() {
    let parser = parse("# Title\n\nSome *bold-ish* text.");
    assert_eq!(
        shapes(&parser),
        vec![
            "Header{level=1}[Text\" Title\"]",
            "EndOfLine",
            "EndOfLine",
            "Paragraph[Text\"Some \", Italic[Text\"bold-ish\"], Text\" text.\"]",
        ]
    );
}

#[test]
fn header_level_is_not_clamped() {
    for n in 1..=9usize {
        let input = format!("{} h", "#".repeat(n));
        let parser = parse(&input);
        assert_eq!(shapes(&parser), vec![format!("Header{{level={n}}}[Text\" h\"]")]);
        assert_eq!(parser.ast.elements[0].get_attr("level").unwrap(), &n.to_string());
    }
}

#[test]
fn unterminated_markers_are_text() {
    assert_eq!(shapes(&parse("*unterminated")), vec!["Paragraph[Text\"*\", Text\"unterminated\"]"]);
    assert_eq!(shapes(&parse("a _b\nc_")), vec![
        "Paragraph[Text\"a \", Text\"_\", Text\"b\"]",
        "EndOfLine",
        "Paragraph[Text\"c\", Text\"_\"]",
    ]);
    assert_eq!(shapes(&parse("a `b")), vec!["Paragraph[Text\"a \", Text\"`\", Text\"b\"]"]);
    assert_eq!(shapes(&parse("a $b")), vec!["Paragraph[Text\"a \", Text\"$\", Text\"b\"]"]);
    assert_eq!(shapes(&parse("a [b")), vec!["Paragraph[Text\"a \", Text\"[\", Text\"b\"]"]);
    assert_eq!(shapes(&parse("a [b] c")), vec!["Paragraph[Text\"a \", Text\"[\", Text\"b\", Text\" c\"]"]);
    assert_eq!(shapes(&parse("a ![b]")), vec!["Paragraph[Text\"a \", Text\"!\", Text\"[\", Text\"b\"]"]);
    assert_eq!(shapes(&parse("a ****b****")), vec!["Paragraph[Text\"a \", Text\"****\", Text\"b\", Text\"****\"]"]);
}

#[test]
fn containers_nest() {
    assert_eq!(shapes(&parse("**_x_**")), vec!["Bold[Italic[Text\"x\"]]"]);
    assert_eq!(shapes(&parse("***x***")), vec!["BoldItalic[Text\"x\"]"]);
    assert_eq!(
        shapes(&parse("test \n test *__test__* none")),
        vec![
            "Paragraph[Text\"test \"]",
            "EndOfLine",
            "Paragraph[Text\" \", Text\"test \", Italic[Bold[Text\"test\"]], Text\" none\"]",
        ]
    );
    assert_eq!(
        shapes(&parse("*a[b*")),
        vec!["Italic[Text\"a\", Text\"[\", Text\"b\"]"]
    );
}

#[test]
fn lists_quotes_and_rules() {
    assert_eq!(
        shapes(&parse("a\n- x\n    - y\n\t- z\n1. one\n> q\n---\n")),
        vec![
            "Paragraph[Text\"a\"]",
            "EndOfLine",
            "ListItem{level=0}[Text\" x\"]",
            "EndOfLine",
            "ListItem{level=1}[Text\" y\"]",
            "EndOfLine",
            "ListItem{level=1}[Text\" z\"]",
            "EndOfLine",
            "OrderedListElement{num=1}{level=0}[Text\" one\"]",
            "EndOfLine",
            "Blockquote[Text\" q\"]",
            "EndOfLine",
            "HorizontalRule",
            "EndOfLine",
        ]
    );
}

#[test]
fn whitespace_that_is_no_indentation_is_text() {
    assert_eq!(
        shapes(&parse("a\n  b")),
        vec!["Paragraph[Text\"a\"]", "EndOfLine", "Paragraph[Text\"  \", Text\"b\"]"]
    );
}

#[test]
fn links_and_previews() {
    assert_eq!(
        shapes(&parse("[test](link.url)\n![prev of a file](example.com)\ntest ![other txt](./x)")),
        vec![
            "Link\"test\"{link=link.url}",
            "EndOfLine",
            "FilePrev\"prev of a file\"{link=example.com}",
            "EndOfLine",
            "Paragraph[Text\"test \", FilePrev\"other txt\"{link=./x}]",
        ]
    );
}

#[test]
fn code_and_latex() {
    assert_eq!(
        shapes(&parse("test $e = mc^2$ \n$$e = mc^3$$")),
        vec![
            "Paragraph[Text\"test \", InlineLaTeX\"e = mc^2\", Text\" \"]",
            "EndOfLine",
            "BlockLaTeX\"e = mc^3\"",
        ]
    );
    assert_eq!(
        shapes(&parse("\ntest `test`\n```rust\nfn a() {}\n```\n")),
        vec![
            "EndOfLine",
            "Paragraph[Text\"test \", InlineCode\"test\"]",
            "EndOfLine",
            "BlockCode\"\\nfn a() {}\\n\"{lang=rust}",
            "EndOfLine",
        ]
    );
}

#[test]
fn block_code_that_is_not_closed_fails() {
    let mut parser = Parser::with_seed(init_plain_lexer("```rust\nfn a() {}\n"), 0);
    assert!(matches!(parser.parse(), Err(ParseError::Peek(0))));
}

#[test]
fn custom_element_round_trip() {
    let parser = parse("%{{\nname: navbar\nkey: value\n}}");
    assert!(parser.has_custom);
    assert_eq!(parser.ast.elements.len(), 1);
    match &parser.ast.elements[0].kind {
        Kind::CustomElement(c) => {
            assert_eq!(c.name, "navbar");
            assert_eq!(c.values.len(), 1);
            assert_eq!(c.values.get("key"), Some(&"value".to_string()));
            assert_eq!(c.body, None);
            assert_eq!(c.template, None);
        }
        k => panic!("{k:?}"),
    }
}

#[test]
fn custom_element_with_body() {
    let parser = parse("%{{\nname: test\nother: key\n---\nbody\ntest\n}}\n---\ntest");
    assert_eq!(shapes(&parser), vec![
        "Custom<test>", "EndOfLine", "HorizontalRule", "EndOfLine", "Paragraph[Text\"test\"]"
    ]);
    match &parser.ast.elements[0].kind {
        Kind::CustomElement(c) => {
            assert_eq!(c.values.get("other"), Some(&"key".to_string()));
            assert_eq!(c.body, Some("body\ntest".to_string()));
        }
        k => panic!("{k:?}"),
    }
}

#[test]
fn custom_element_errors() {
    let mut parser = Parser::with_seed(init_plain_lexer("%{{\nkey: value\n}}"), 0);
    assert!(matches!(
        parser.parse(),
        Err(ParseError::CustomElementError(bismuth::custom::CustomElmError::NoName))
    ));
    let mut parser = Parser::with_seed(init_plain_lexer("%{{\nname: [a\n}}"), 0);
    assert!(matches!(
        parser.parse(),
        Err(ParseError::CustomElementError(bismuth::custom::CustomElmError::YamlParse(_)))
    ));
    let mut parser = Parser::with_seed(init_plain_lexer("%{{\nname: a\n"), 0);
    assert!(matches!(parser.parse(), Err(ParseError::CouldNotFindPattern)));
    assert_eq!(shapes(&parse("a %{{")), vec!["Paragraph[Text\"a \", Text\"%\", Text\"{{\"]"]);
}

#[test]
fn front_matter_text_is_kept() {
    let parser = parse("---\ntitle: test title\nvalues:\n    - key: value\n---\nbody");
    assert_eq!(
        parser.frontmatter_text,
        Some("\ntitle: test title\nvalues:\n    - key: value".to_string())
    );
    assert_eq!(shapes(&parser), vec!["EndOfLine", "Paragraph[Text\"body\"]"]);
}

#[test]
fn ids_are_unique_and_start_at_the_seed() {
    let parser = parse("# a *b* _c_\n\n- [x](y) `z`\n%{{\nname: n\n}}\ntext **_deep_**");
    let mut all = Vec::new();
    for e in &parser.ast.elements {
        ids(e, &mut all);
    }
    let mut sorted = all.clone();
    sorted.sort();
    sorted.dedup();
    assert_eq!(sorted.len(), all.len());
    assert_eq!(sorted[0], 100);
    assert_eq!(*sorted.last().unwrap() as usize, 100 + all.len() - 1);
}

#[test]
fn ids_wrap_around() {
    let mut parser = Parser::with_seed(init_plain_lexer("a *b*"), u32::MAX);
    parser.parse().unwrap();
    let mut all = Vec::new();
    for e in &parser.ast.elements {
        ids(e, &mut all);
    }
    assert_eq!(all, vec![u32::MAX, 0, 1, 2]);
}

#[test]
fn markers_that_cross_never_fail() {
    assert_eq!(
        shapes(&parse("*a_b*c_d*e_")),
        vec!["Italic[Text\"a\", Italic[Text\"b\", Italic[Text\"c\", Italic[Text\"d\", Text\"*\", Text\"e\"]]]]"]
    );
    for input in ["*", "**", "_", "`", "$", "$$", "[", "![", "!", "*a", "a*", "*_*_", "_*_*_*", "[a](b", "[a]", "- ", "> ", "#", "# ", "1.", "    "] {
        let mut parser = Parser::with_seed(init_plain_lexer(input), 7);
        assert!(parser.parse().is_ok(), "{input:?}");
        let mut parser = Parser::new_test("/t.md", input).unwrap();
        assert!(parser.parse().is_ok(), "{input:?}");
    }
}

fn check_small_text(input: &str) {
    let mut lexer = Lexer::new(MarkdownFile { content: input.to_string(), path: "/t.md".to_string() });
    match lexer.run_lexer() {
        Err(e) => {
            assert_eq!(e, bismuth::lex_model::LexerError::FrontmatterError, "{input:?}");
            assert!(input.starts_with("---") && !input.starts_with("----"), "{input:?}");
            assert!(!input[3..].contains("---\n"), "{input:?}");
            return;
        }
        Ok(()) => {}
    }
    let spelled: String = lexer.tokens.iter().flat_map(|t| t.text.iter()).collect();
    assert_eq!(spelled, input, "{input:?}");
    for pair in lexer.tokens[1..lexer.tokens.len() - 1].windows(2) {
        assert_eq!(pair[0].end + 1, pair[1].start, "{input:?}");
        assert!(
            pair[0].kind != pair[1].kind || pair[0].kind == TokenType::EndOfLine,
            "{input:?}"
        );
    }
    let front_matter = lexer.tokens.iter().any(|t| t.kind == TokenType::FrontmatterStart);
    let mut parser = Parser::with_seed(lexer, u32::MAX - 2);
    let outcome = parser.parse();
    if input.contains("```") {
        return;
    }
    assert!(outcome.is_ok(), "{input:?}");
    assert_eq!(parser.frontmatter_text.is_some(), front_matter, "{input:?}");
    assert!(parser.current_element().is_none());
    let mut all = Vec::new();
    for e in &parser.ast.elements {
        ids(e, &mut all);
    }
    assert_eq!(all.len(), parser.ids_issued as usize, "{input:?}");
    let mut sorted = all.clone();
    sorted.sort();
    sorted.dedup();
    assert_eq!(sorted.len(), all.len(), "{input:?}");
}

fn small_texts(alphabet: &[char], len: usize, text: &mut String) {
    check_small_text(text);
    if len == 0 {
        return;
    }
    for c in alphabet {
        text.push(*c);
        small_texts(alphabet, len - 1, text);
        text.pop();
    }
}

#[test]
fn small_texts_are_lexed_and_parsed() {
    let marks = ['a', ' ', '*', '_', '`', '$', '[', ']', '(', ')', '!', '#', '-', '\n', '1', '.', '>'];
    small_texts(&marks, 4, &mut String::new());
    let lines = ['-', '\n', 'a', ' ', '\t', '*'];
    small_texts(&lines, 7, &mut String::new());
}
