use bismuth::lex_model::LexerError;
use bismuth::lexer::{Lexer, MarkdownFile};
use bismuth::token::{Token, TokenType};

fn setup(content: &str) -> MarkdownFile {
    MarkdownFile { content: content.to_string(), path: String::new() }
}

fn lex(content: &str) -> Vec<Token> {
    let mut lexer = Lexer::new(setup(content));
    lexer.run_lexer().unwrap();
    lexer.tokens
}

fn kinds(tokens: &[Token]) -> Vec<TokenType> {
    tokens.iter().map(|t| t.kind).collect()
}

fn text(token: &Token) -> String {
    token.text.iter().collect()
}

#[test]
fn test_peek_till() {
    let file = setup("this is a test aaaaabc");
    let mut lexer = Lexer::new(file);
    lexer.move_to(15).unwrap();

    assert_eq!(lexer.peek_till('c'), (15, lexer.chars.len() - 2));

    let file = setup("this is a test aaaaaab");
    let mut lexer = Lexer::new(file);
    lexer.move_to(15).unwrap();

    assert_eq!(lexer.peek_till('b'), (15, lexer.chars.len() - 2));
}

#[test]
fn test_peek_till_diff() {
    let file = setup("this is a test aaaaab");
    let mut lexer = Lexer::new(file);
    lexer.move_to(15).unwrap();

    assert_eq!(lexer.peek_till_diff(), (15, lexer.chars.len() - 2));

    let file = setup("this is a test aaaaaa");
    let mut lexer = Lexer::new(file);
    lexer.move_to(15).unwrap();

    assert_eq!(lexer.peek_till_diff(), (15, lexer.chars.len() - 1));
}

#[test]
fn test_range() {
    let file = setup("this is a test aaaaaa");
    let mut lexer = Lexer::new(file);
    lexer.move_to(15).unwrap();

    let diff = lexer.peek_till_diff();
    assert_eq!(lexer.get_range(diff.0, diff.1), vec!['a', 'a', 'a', 'a', 'a', 'a']);

    let file = setup("this is a test aaaaab");
    let mut lexer = Lexer::new(file);
    lexer.move_to(15).unwrap();

    let diff = lexer.peek_till_diff();
    assert_eq!(lexer.get_range(diff.0, diff.1), vec!['a', 'a', 'a', 'a', 'a']);
}

#[test]
fn test_nexn_line() {
    let file = setup("this is a test aaaaaa \n this is a test");
    let mut lexer = Lexer::new(file);
    lexer.move_to(15).unwrap();

    let num = lexer.next_line();
    assert_eq!(22, num);
}

#[test]
fn carriage_returns_are_stripped() {
    let lexer = Lexer::new(setup("a\r\nb\r"));
    assert_eq!(lexer.chars, vec!['a', '\n', 'b']);
    let lexer = Lexer::new_test("/test/test.md", "a\r\nb");
    assert_eq!(lexer.chars, vec!['a', '\n', 'b', '\n']);
    assert_eq!(lexer.path, "/test/test.md");
}

#[test]
fn an_empty_text_is_two_sentinels() {
    assert_eq!(
        lex(""),
        vec![
            Token::new(TokenType::StartOfFile, vec![], 0, 0),
            Token::new(TokenType::EndOfFile, vec![], 0, 0),
        ]
    );
}

#[test]
fn repeated_marks_are_one_token() {
    for (c, kind) in [
        ('*', TokenType::Asterisk),
        ('$', TokenType::DollarSign),
        ('\t', TokenType::Tab),
        ('_', TokenType::Underscore),
        ('[', TokenType::BracketLeft),
        (']', TokenType::BracketRight),
        ('(', TokenType::ParenthesisLeft),
        (')', TokenType::ParenthesisRight),
        ('`', TokenType::Backtick),
        ('{', TokenType::CurlybraceLeft),
        ('}', TokenType::CurlybraceRight),
        ('%', TokenType::Percent),
        ('!', TokenType::Exclamation),
        ('#', TokenType::Text),
        ('x', TokenType::Text),
    ] {
        for n in 1..5usize {
            let input: String = std::iter::repeat(c).take(n).collect();
            let tokens = lex(&input);
            assert_eq!(
                tokens,
                vec![
                    Token::new(TokenType::StartOfFile, vec![], 0, 0),
                    Token::new(kind, input.chars().collect(), 0, n - 1),
                    Token::new(TokenType::EndOfFile, vec![], n, n),
                ]
            );
        }
    }
}

#[test]
fn line_breaks_are_never_merged() {
    let tokens = lex("\n\n\n");
    assert_eq!(
        kinds(&tokens),
        vec![
            TokenType::StartOfFile,
            TokenType::EndOfLine,
            TokenType::EndOfLine,
            TokenType::EndOfLine,
            TokenType::EndOfFile
        ]
    );
}

#[test]
fn tokens_spell_the_text() {
    for input in [
        "# Title\n\nSome *bold-ish* text.",
        "---\ntitle: x\nvalues:\n    - a: b\n\n---\nbody > x\n> quote\n1. one\n12.x\n---\n- item\n",
        "%{{\nname: navbar\nkey: value\n}}",
        "a ! b !c #tag ## h\n    indented `code` $x$ [l](u) ![p](f)",
        "-",
        "--",
        "----",
        "---a---\nrest",
    ] {
        let tokens = lex(input);
        assert_eq!(tokens.first().unwrap().kind, TokenType::StartOfFile);
        assert_eq!(tokens.last().unwrap().kind, TokenType::EndOfFile);
        let spelled: String = tokens.iter().map(text).collect();
        assert_eq!(spelled, input);
        let mut at = 0;
        for t in &tokens[1..tokens.len() - 1] {
            assert_eq!(t.start, at);
            assert_eq!(t.end + 1 - t.start, t.text.len());
            at = t.end + 1;
        }
        assert_eq!(at, input.chars().count());
    }
}

#[test]
fn hash_needs_a_space_after_the_run() {
    assert_eq!(
        lex("## h"),
        vec![
            Token::new(TokenType::StartOfFile, vec![], 0, 0),
            Token::new(TokenType::Hash, vec!['#', '#'], 0, 1),
            Token::new(TokenType::Text, vec![' ', 'h'], 2, 3),
            Token::new(TokenType::EndOfFile, vec![], 4, 4),
        ]
    );
    assert_eq!(
        lex("#tag"),
        vec![
            Token::new(TokenType::StartOfFile, vec![], 0, 0),
            Token::new(TokenType::Text, "#tag".chars().collect(), 0, 3),
            Token::new(TokenType::EndOfFile, vec![], 4, 4),
        ]
    );
}

#[test]
fn exclamation_before_a_space_is_text() {
    assert_eq!(
        kinds(&lex("a! b")),
        vec![TokenType::StartOfFile, TokenType::Text, TokenType::EndOfFile]
    );
    assert_eq!(
        kinds(&lex("![")),
        vec![
            TokenType::StartOfFile,
            TokenType::Exclamation,
            TokenType::BracketLeft,
            TokenType::EndOfFile
        ]
    );
}

#[test]
fn greater_than_opens_a_quote_only_at_a_line_start() {
    assert_eq!(
        kinds(&lex("a\n> b")),
        vec![
            TokenType::StartOfFile,
            TokenType::Text,
            TokenType::EndOfLine,
            TokenType::GreaterThan,
            TokenType::Text,
            TokenType::EndOfFile
        ]
    );
    assert_eq!(
        kinds(&lex("a > b\n>b\n>")),
        vec![
            TokenType::StartOfFile,
            TokenType::Text,
            TokenType::EndOfLine,
            TokenType::Text,
            TokenType::EndOfLine,
            TokenType::Text,
            TokenType::EndOfFile
        ]
    );
}

#[test]
fn spaces_are_indentation_after_a_line_break() {
    assert_eq!(
        lex("a b\n    c"),
        vec![
            Token::new(TokenType::StartOfFile, vec![], 0, 0),
            Token::new(TokenType::Text, vec!['a', ' ', 'b'], 0, 2),
            Token::new(TokenType::EndOfLine, vec!['\n'], 3, 3),
            Token::new(TokenType::Whitespace, vec![' ', ' ', ' ', ' '], 4, 7),
            Token::new(TokenType::Text, vec!['c'], 8, 8),
            Token::new(TokenType::EndOfFile, vec![], 9, 9),
        ]
    );
}

#[test]
fn list_numbers_and_digits() {
    assert_eq!(
        lex("12. a\n3x 4."),
        vec![
            Token::new(TokenType::StartOfFile, vec![], 0, 0),
            Token::new(TokenType::ListNumber, vec!['1', '2', '.'], 0, 2),
            Token::new(TokenType::Text, vec![' ', 'a'], 3, 4),
            Token::new(TokenType::EndOfLine, vec!['\n'], 5, 5),
            Token::new(TokenType::Text, "3x 4.".chars().collect(), 6, 10),
            Token::new(TokenType::EndOfFile, vec![], 11, 11),
        ]
    );
}

#[test]
fn dashes_inside_the_document() {
    assert_eq!(
        lex("a\n---\n- b\nc-d -"),
        vec![
            Token::new(TokenType::StartOfFile, vec![], 0, 0),
            Token::new(TokenType::Text, vec!['a'], 0, 0),
            Token::new(TokenType::EndOfLine, vec!['\n'], 1, 1),
            Token::new(TokenType::Dash, vec!['-', '-', '-'], 2, 4),
            Token::new(TokenType::EndOfLine, vec!['\n'], 5, 5),
            Token::new(TokenType::Dash, vec!['-'], 6, 6),
            Token::new(TokenType::Text, vec![' ', 'b'], 7, 8),
            Token::new(TokenType::EndOfLine, vec!['\n'], 9, 9),
            Token::new(TokenType::Text, "c-d -".chars().collect(), 10, 14),
            Token::new(TokenType::EndOfFile, vec![], 15, 15),
        ]
    );
    assert_eq!(
        kinds(&lex("a\n----\n")),
        vec![
            TokenType::StartOfFile,
            TokenType::Text,
            TokenType::EndOfLine,
            TokenType::Text,
            TokenType::EndOfLine,
            TokenType::EndOfFile
        ]
    );
}

#[test]
fn front_matter_is_read_line_by_line() {
    assert_eq!(
        lex("---\ntitle: x\n\nkind: y\n---\nz"),
        vec![
            Token::new(TokenType::StartOfFile, vec![], 0, 0),
            Token::new(TokenType::FrontmatterStart, vec!['-', '-', '-'], 0, 2),
            Token::new(TokenType::EndOfLine, vec!['\n'], 3, 3),
            Token::new(TokenType::FrontmatterInside, "title: x".chars().collect(), 4, 11),
            Token::new(TokenType::EndOfLine, vec!['\n'], 12, 12),
            Token::new(TokenType::EndOfLine, vec!['\n'], 13, 13),
            Token::new(TokenType::FrontmatterInside, "kind: y".chars().collect(), 14, 20),
            Token::new(TokenType::EndOfLine, vec!['\n'], 21, 21),
            Token::new(TokenType::FrontmatterEnd, vec!['-', '-', '-'], 22, 24),
            Token::new(TokenType::EndOfLine, vec!['\n'], 25, 25),
            Token::new(TokenType::Text, vec!['z'], 26, 26),
            Token::new(TokenType::EndOfFile, vec![], 27, 27),
        ]
    );
}

#[test]
fn front_matter_that_is_not_closed_fails() {
    for input in ["---", "---\n", "---\ntitle: x\n", "---\ntitle: x\n---", "---\n--- \n"] {
        let mut lexer = Lexer::new(setup(input));
        assert_eq!(lexer.run_lexer(), Err(LexerError::FrontmatterError), "{input:?}");
    }
}

#[test]
fn a_dash_at_the_start_that_opens_nothing_is_text() {
    assert_eq!(
        lex("- a"),
        vec![
            Token::new(TokenType::StartOfFile, vec![], 0, 0),
            Token::new(TokenType::Text, vec!['-', ' ', 'a'], 0, 2),
            Token::new(TokenType::EndOfFile, vec![], 3, 3),
        ]
    );
}

#[test]
fn cursor_moves() {
    let mut lexer = Lexer::new(setup("ab"));
    assert_eq!(lexer.current(), Ok(&'a'));
    assert_eq!(lexer.peek(1), Ok(&'b'));
    assert_eq!(lexer.peek(2), Err(LexerError::PeekError(2)));
    assert_eq!(lexer.next(), Ok('b'));
    assert_eq!(lexer.peek_back(1), Ok(&'a'));
    assert_eq!(lexer.next(), Err(LexerError::GetCharError));
    assert_eq!(lexer.next(), Err(LexerError::MoveError(3)));
    assert_eq!(lexer.current(), Err(LexerError::GetCharError));
    assert_eq!(lexer.move_to(2), Err(LexerError::MoveError(2)));
    assert_eq!(lexer.move_to(0), Ok('a'));
    assert_eq!(lexer.position(), 0);
    assert_eq!(lexer.len(), 2);
}

#[test]
fn lines_with_their_first_index() {
    let lexer = Lexer::new(setup("ab\n\ncd\nrest"));
    assert_eq!(
        lexer.get_lines(),
        vec![(0, "ab\n".to_string()), (3, "\n".to_string()), (4, "cd\n".to_string())]
    );
}

#[test]
fn token_append_extends_the_span() {
    let mut t = Token::new(TokenType::Text, vec!['a'], 4, 4);
    t.append(vec!['b', 'c']);
    assert_eq!(t, Token::new(TokenType::Text, vec!['a', 'b', 'c'], 4, 6));
    assert_eq!(t.len(), 3);
    assert_eq!(t.clone(), t);
}

#[test]
fn test_regex() {
    let file = setup("This is a test for my test, email@test.com");
    let mut lexer = Lexer::new(file);
    lexer.move_to(27).unwrap();

    let re = "([a-zA-Z0-9]+)@([a-zA-Z]*).([a-z]+)";
    assert_eq!(lexer.peek_regex(re), (28, 41));

    let file = setup("This is a test \n for myttest, ");
    let mut lexer = Lexer::new(file);
    lexer.move_to(21).unwrap();

    let re = r"(est,\s$)";
    assert_eq!(lexer.peek_regex(re), (25, 29));

    assert_eq!(lexer.peek_regex("x"), (21, 21));
    assert_eq!(lexer.peek_regex("("), (21, 21));
    assert_eq!(lexer.peek_regex("^"), (21, 21));
}
