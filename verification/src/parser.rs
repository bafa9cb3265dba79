//! The parser: a cursor over the token stream that builds the document tree
//! described in [`crate::parse_model`].

use vstd::prelude::*;
use crate::custom::{CustomElm, CustomElmError};
use crate::frontmatter::Metadata;
use crate::lex_model::{texts, LexerError};
use crate::lexer::Lexer;
use crate::parse_model::{
    advance_by, append_leaf, append_link, append_node, append_text, append_with, back_by, clip,
    custom_end, custom_end_of_file, digits_of, find_pattern, finish, first_in_line, first_of_kind,
    handle_backtick, handle_bracket, handle_container, handle_container_text, handle_dash,
    handle_exclamation, handle_frontmatter, handle_hash, handle_num, handle_percent, handle_tab,
    handle_whitespace, kind_run, link_at, make_custom, make_text, make_text_of, parse_from,
    parse_span, parse_token, reset, spells_kinds, take_id, text_between, token_at_index, tok_len,
    Doc, Fault,
};
use crate::custom::{opt_text, CustomModel};
use crate::strmap::StrMap;
use crate::text::{push_chars, string_from_chars, usize_to_string};
use crate::token::{copy_tokens, toks, Tok, Token, TokenType};
use crate::tree::{lemma_nodes_push, Ast, Element, Kind, Node};

verus! {

/// Why a document cannot be parsed.
#[derive(Debug)]
pub enum ParseError {
    GetToken(usize),
    Move(usize),
    Peek(usize),
    WhitespaceError,
    CouldNotFindPattern,
    CustomElementError(CustomElmError),
    MathError,
}

impl ParseError {
    /// The error as a plain value.
    pub open spec fn fault(&self) -> Fault {
        match self {
            ParseError::GetToken(i) => Fault::GetToken(*i),
            ParseError::Move(i) => Fault::Move(*i),
            ParseError::Peek(i) => Fault::Peek(*i),
            ParseError::WhitespaceError => Fault::WhitespaceError,
            ParseError::CouldNotFindPattern => Fault::CouldNotFindPattern,
            ParseError::CustomElementError(e) => Fault::CustomElement(e.fault()),
            ParseError::MathError => Fault::MathError,
        }
    }
}

/// The outcome `r` and the state `fin` are what the model `m` gives.
pub open spec fn agrees(r: Result<(), ParseError>, fin: Doc, m: Result<Doc, Fault>) -> bool {
    match r {
        Ok(_) => m == Ok::<Doc, Fault>(fin),
        Err(e) => m == Err::<Doc, Fault>(e.fault()),
    }
}

/// The state of the line that is being parsed.
#[derive(Debug)]
pub struct State {
    pub new_line: bool,
    pub inside: Vec<u32>,
    pub indent_level: usize,
}

impl State {
    /// The state of a line on which nothing stands yet.
    pub fn new() -> (s: Self)
        ensures
            s.new_line,
            s.inside@ == Seq::<u32>::empty(),
            s.indent_level == 0,
    {
        State { new_line: true, inside: Vec::new(), indent_level: 0 }
    }
}

impl Default for State {
    fn default() -> (s: Self)
        ensures
            s.new_line,
            s.inside@ == Seq::<u32>::empty(),
            s.indent_level == 0,
    {
        State::new()
    }
}

/// The parser of one document.
#[derive(Debug)]
pub struct Parser {
    pub lexer: Lexer,
    pub index: usize,
    pub metadata: Metadata,
    pub current_element: Option<Element>,
    pub state: State,
    pub has_custom: bool,
    pub ast: Ast,
    pub id_seed: u32,
    pub ids_issued: u32,
    pub frontmatter_text: Option<String>,
}

/// An optional element as a mathematical value.
pub open spec fn opt_node(e: Option<Element>) -> Option<Node> {
    match e {
        Some(e) => Some(e.model()),
        None => None,
    }
}

impl Parser {
    /// The token stream as mathematical values.
    pub open spec fn tokens(&self) -> Seq<Tok> {
        toks(self.lexer.tokens@)
    }

    /// The parser as a state of the model.
    pub open spec fn doc(&self) -> Doc {
        Doc {
            index: self.index as int,
            current: opt_node(self.current_element),
            ast: self.ast.model(),
            new_line: self.state.new_line,
            inside: self.state.inside@,
            indent_level: self.state.indent_level as int,
            has_custom: self.has_custom,
            seed: self.id_seed,
            issued: self.ids_issued as int,
            front_matter: opt_text(self.frontmatter_text),
        }
    }

    /// The two parsers read the same token stream of the same document.
    pub open spec fn same_source(&self, other: &Parser) -> bool {
        self.lexer == other.lexer && self.metadata == other.metadata
    }

    /// The state in which a parser with the seed `seed` begins.
    pub open spec fn initial_doc(seed: u32) -> Doc {
        Doc {
            index: 0,
            current: None,
            ast: Seq::empty(),
            new_line: true,
            inside: Seq::empty(),
            indent_level: 0,
            has_custom: false,
            seed,
            issued: 0,
            front_matter: None,
        }
    }

    /// A parser over the tokens of `lexer` whose ids begin at `seed`.
    pub fn with_seed(lexer: Lexer, seed: u32) -> (p: Self)
        ensures
            p.lexer == lexer,
            p.doc() == Parser::initial_doc(seed),
            p.metadata.absolute_path@ == lexer.path@,
    {
        let metadata = Metadata::new(lexer.path.as_str());
        let p = Parser {
            lexer,
            index: 0,
            metadata,
            current_element: None,
            state: State::new(),
            has_custom: false,
            ast: Ast { elements: Vec::new() },
            id_seed: seed,
            ids_issued: 0,
            frontmatter_text: None,
        };
        proof {
            assert(p.ast.model() =~= Seq::empty());
        }
        p
    }

    /// A parser over the tokens of `lexer`. Its ids begin at a random number.
    pub fn new(lexer: Lexer) -> (p: Self)
        ensures
            p.lexer == lexer,
            p.doc() == Parser::initial_doc(p.id_seed),
    {
        Parser::with_seed(lexer, crate::tree::random_u32())
    }

    /// A parser over the tokens of `content`, which is lexed with a line
    /// break after its last line. Fails where the text cannot be lexed.
    pub fn new_test(path: &str, content: &str) -> (r: Result<Self, LexerError>)
        ensures
            match r {
                Ok(p) => crate::lex_model::lex(crate::lex_model::without_cr(content@).push('\n'))
                    == Ok::<Seq<Tok>, LexerError>(p.tokens()) && p.doc() == Parser::initial_doc(
                    p.id_seed,
                ) && p.lexer.buffer() == crate::lex_model::without_cr(content@).push('\n'),
                Err(e) => crate::lex_model::lex(crate::lex_model::without_cr(content@).push('\n'))
                    == Err::<Seq<Tok>, LexerError>(e),
            },
    {
        let mut lexer = Lexer::new_test(path, content);
        match lexer.run_lexer() {
            Err(e) => Err(e),
            Ok(_) => Ok(Parser::new(lexer)),
        }
    }

    /// The token at the cursor.
    pub fn current_token(&self) -> (r: Result<&Token, ParseError>)
        ensures
            match r {
                Ok(t) => token_at_index(self.tokens(), self.index as int) == Ok::<Tok, Fault>(
                    t@,
                ) && self.index < self.lexer.tokens.len() && *t
                    == self.lexer.tokens[self.index as int],
                Err(e) => token_at_index(self.tokens(), self.index as int) == Err::<Tok, Fault>(
                    e.fault(),
                ),
            },
    {
        if self.index < self.lexer.tokens.len() {
            Ok(&self.lexer.tokens[self.index])
        } else {
            Err(ParseError::GetToken(self.index))
        }
    }

    /// The characters of the token at the cursor.
    pub fn current_token_chars(&self) -> (r: Result<&Vec<char>, ParseError>)
        ensures
            match r {
                Ok(c) => self.index < self.tokens().len() && c@
                    == self.tokens()[self.index as int].text,
                Err(e) => token_at_index(self.tokens(), self.index as int) == Err::<Tok, Fault>(
                    e.fault(),
                ),
            },
    {
        match self.current_token() {
            Ok(t) => Ok(&t.text),
            Err(e) => Err(e),
        }
    }

    /// The number of characters that the bounds of `token` enclose.
    pub fn token_len(&self, token: &Token) -> (n: usize)
        ensures
            n == tok_len(token@),
    {
        if token.end >= token.start {
            let d: usize = token.end - token.start;
            if d < usize::MAX {
                d + 1
            } else {
                usize::MAX
            }
        } else {
            0
        }
    }

    /// The length of the token at the cursor.
    pub fn current_token_len(&self) -> (r: Result<usize, ParseError>)
        ensures
            match r {
                Ok(n) => self.index < self.tokens().len() && n == tok_len(
                    self.tokens()[self.index as int],
                ),
                Err(e) => token_at_index(self.tokens(), self.index as int) == Err::<Tok, Fault>(
                    e.fault(),
                ),
            },
    {
        match self.current_token() {
            Ok(t) => Ok(self.token_len(t)),
            Err(e) => Err(e),
        }
    }

    /// The element that is open.
    pub fn current_element(&self) -> (r: Option<&Element>)
        ensures
            match r {
                Some(e) => self.current_element == Some(*e),
                None => self.current_element is None,
            },
    {
        self.current_element.as_ref()
    }

    /// Opens `elm` in place of the element that is open.
    pub fn set_current(&mut self, elm: Element)
        ensures
            final(self).doc() == (Doc { current: Some(elm.model()), ..old(self).doc() }),
            final(self).same_source(old(self)),
    {
        self.current_element = Some(elm);
    }

    /// Begins a line anew.
    pub fn reset_state(&mut self)
        ensures
            final(self).doc() == reset(old(self).doc()),
            final(self).same_source(old(self)),
    {
        self.state = State::new();
    }

    /// Adds `elm` to the document. A line end closes the open element: both
    /// become top-level elements, and the line begins anew. Any other element
    /// opens the line, or becomes the last child of the innermost container
    /// that is open.
    pub fn append_element(&mut self, elm: Element)
        ensures
            final(self).doc() == append_node(old(self).doc(), elm.model()),
            final(self).same_source(old(self)),
    {
        if elm.kind.is_end_of_line() {
            let open = self.current_element.take();
            match open {
                Some(c) => {
                    proof {
                        lemma_nodes_push(self.ast.elements@, c);
                        lemma_nodes_push(self.ast.elements@.push(c), elm);
                    }
                    self.ast.elements.push(c);
                    self.ast.elements.push(elm);
                    self.reset_state();
                },
                None => {
                    proof {
                        lemma_nodes_push(self.ast.elements@, elm);
                    }
                    self.ast.elements.push(elm);
                },
            }
        } else {
            let open = self.current_element.take();
            match open {
                Some(c) => {
                    let mut c = c;
                    c.push_at_path(&self.state.inside, 0, elm);
                    proof {
                        assert(self.state.inside@.skip(0) =~= self.state.inside@);
                    }
                    self.current_element = Some(c);
                },
                None => {
                    self.current_element = Some(elm);
                },
            }
            self.state.new_line = false;
        }
    }

    fn step(&mut self, n: usize) -> (r: Result<(), ParseError>)
        ensures
            final(self).same_source(old(self)),
            agrees(r, final(self).doc(), advance_by(old(self).tokens(), old(self).doc(), n as int)),
            r is Err ==> final(self).doc() == old(self).doc(),
    {
        let len: usize = self.lexer.tokens.len();
        if n >= len || self.index >= len - n {
            let at: usize = if n <= usize::MAX - self.index {
                self.index + n
            } else {
                usize::MAX
            };
            return Err(ParseError::Move(at));
        }
        self.index = self.index + n;
        Ok(())
    }

    /// Moves the cursor one token on and hands back the token there.
    pub fn advance_token(&mut self) -> (r: Result<&Token, ParseError>)
        ensures
            final(self).same_source(old(self)),
            match r {
                Ok(t) => advance_by(old(self).tokens(), old(self).doc(), 1) == Ok::<Doc, Fault>(
                    final(self).doc(),
                ) && t@ == old(self).tokens()[old(self).index + 1],
                Err(e) => advance_by(old(self).tokens(), old(self).doc(), 1) == Err::<Doc, Fault>(
                    e.fault(),
                ) && final(self).doc() == old(self).doc(),
            },
    {
        self.advance_n_token(1)
    }

    /// Moves the cursor one token back and hands back the token there.
    pub fn back_token(&mut self) -> (r: Result<&Token, ParseError>)
        ensures
            final(self).same_source(old(self)),
            match r {
                Ok(t) => back_by(old(self).doc(), 1) == Ok::<Doc, Fault>(final(self).doc())
                    && final(self).index < old(self).tokens().len() && t@ == old(self).tokens()[final(self).index as int],
                Err(e) => final(self).doc() == old(self).doc() && (back_by(old(self).doc(), 1)
                    == Err::<Doc, Fault>(e.fault()) || (back_by(old(self).doc(), 1) is Ok
                    && e.fault() == Fault::GetToken((old(self).index - 1) as usize))),
            },
    {
        self.back_n_token(1)
    }

    /// Moves the cursor `n` tokens on and hands back the token there. Fails,
    /// and moves nothing, where that leaves the token stream.
    pub fn advance_n_token(&mut self, n: usize) -> (r: Result<&Token, ParseError>)
        ensures
            final(self).same_source(old(self)),
            match r {
                Ok(t) => advance_by(old(self).tokens(), old(self).doc(), n as int) == Ok::<
                    Doc,
                    Fault,
                >(final(self).doc()) && t@ == old(self).tokens()[old(self).index + n],
                Err(e) => advance_by(old(self).tokens(), old(self).doc(), n as int) == Err::<
                    Doc,
                    Fault,
                >(e.fault()) && final(self).doc() == old(self).doc(),
            },
    {
        match self.step(n) {
            Err(e) => Err(e),
            Ok(_) => Ok(&self.lexer.tokens[self.index]),
        }
    }

    /// Moves the cursor `n` tokens back and hands back the token there.
    /// Fails, and moves nothing, where that leaves the token stream.
    pub fn back_n_token(&mut self, n: usize) -> (r: Result<&Token, ParseError>)
        ensures
            final(self).same_source(old(self)),
            match r {
                Ok(t) => back_by(old(self).doc(), n as int) == Ok::<Doc, Fault>(final(self).doc())
                    && final(self).index < old(self).tokens().len() && t@ == old(self).tokens()[final(self).index as int],
                Err(e) => final(self).doc() == old(self).doc() && (back_by(
                    old(self).doc(),
                    n as int,
                ) == Err::<Doc, Fault>(e.fault()) || (back_by(old(self).doc(), n as int) is Ok
                    && e.fault() == Fault::GetToken((old(self).index - n) as usize))),
            },
    {
        if n > self.index {
            let at: usize = if n <= usize::MAX - self.index {
                self.index + n
            } else {
                usize::MAX
            };
            return Err(ParseError::Move(at));
        }
        if self.index - n >= self.lexer.tokens.len() {
            return Err(ParseError::GetToken(self.index - n));
        }
        self.index = self.index - n;
        Ok(&self.lexer.tokens[self.index])
    }

    /// The token at the index `n`.
    pub fn peek_at(&self, n: usize) -> (r: Result<&Token, ParseError>)
        ensures
            match r {
                Ok(t) => n < self.tokens().len() && t@ == self.tokens()[n as int],
                Err(e) => n >= self.tokens().len() && e.fault() == Fault::Peek(n),
            },
    {
        if n < self.lexer.tokens.len() {
            Ok(&self.lexer.tokens[n])
        } else {
            Err(ParseError::Peek(n))
        }
    }

    /// The token `n` places after the cursor.
    pub fn peek(&self, n: usize) -> (r: Result<&Token, ParseError>)
        ensures
            match r {
                Ok(t) => self.index + n < self.tokens().len() && t@ == self.tokens()[self.index
                    + n],
                Err(e) => self.index + n >= self.tokens().len() && e.fault() == Fault::Peek(
                    clip(self.index + n),
                ),
            },
    {
        let len: usize = self.lexer.tokens.len();
        if n <= usize::MAX - self.index {
            self.peek_at(self.index + n)
        } else {
            Err(ParseError::Peek(usize::MAX))
        }
    }

    /// The `n` tokens from the cursor on.
    pub fn peek_till(&self, n: usize) -> (r: Result<Vec<Token>, ParseError>)
        ensures
            match r {
                Ok(v) => self.index + n <= self.tokens().len() && toks(v@)
                    == self.tokens().subrange(self.index as int, self.index + n),
                Err(e) => (n >= self.tokens().len() || self.index + n > self.tokens().len())
                    && e.fault() == Fault::Peek(n),
            },
    {
        let len: usize = self.lexer.tokens.len();
        if n >= len || self.index > len - n {
            return Err(ParseError::Peek(n));
        }
        Ok(copy_tokens(&self.lexer.tokens, self.index, self.index + n))
    }

    fn find_kind(&self, from: usize, kind: TokenType) -> (r: Option<usize>)
        ensures
            match r {
                Some(i) => i == first_of_kind(self.tokens(), from as int, kind) && from <= i
                    < self.tokens().len() && self.tokens()[i as int].kind == kind,
                None => first_of_kind(self.tokens(), from as int, kind) == -1,
            },
    {
        let ghost ts = self.tokens();
        let mut i: usize = from;
        while i < self.lexer.tokens.len()
            invariant
                from <= i,
                ts == self.tokens(),
                first_of_kind(ts, i as int, kind) == first_of_kind(ts, from as int, kind),
            decreases self.lexer.tokens.len() - i,
        {
            if self.lexer.tokens[i].kind == kind {
                return Some(i);
            }
            i += 1;
        }
        None
    }

    fn find_in_line(&self, from: usize, kind: TokenType) -> (r: Option<usize>)
        ensures
            match r {
                Some(i) => i == first_in_line(self.tokens(), from as int, kind) && from <= i
                    < self.tokens().len() && self.tokens()[i as int].kind == kind,
                None => first_in_line(self.tokens(), from as int, kind) == -1,
            },
    {
        let ghost ts = self.tokens();
        let mut i: usize = from;
        while i < self.lexer.tokens.len()
            invariant
                from <= i,
                ts == self.tokens(),
                first_in_line(ts, i as int, kind) == first_in_line(ts, from as int, kind),
            decreases self.lexer.tokens.len() - i,
        {
            let k = self.lexer.tokens[i].kind;
            if k == TokenType::EndOfLine {
                return None;
            }
            if k == kind {
                return Some(i);
            }
            i += 1;
        }
        None
    }

    /// The tokens from the cursor up to the first token of the kind `kind`.
    pub fn peek_till_kind(&self, kind: &TokenType) -> (r: Result<Vec<Token>, ParseError>)
        ensures
            match r {
                Ok(v) => first_of_kind(self.tokens(), self.index as int, *kind) >= 0 && toks(v@)
                    == self.tokens().subrange(
                    self.index as int,
                    first_of_kind(self.tokens(), self.index as int, *kind),
                ),
                Err(e) => first_of_kind(self.tokens(), self.index as int, *kind) == -1
                    && e.fault() == Fault::Peek(0),
            },
    {
        match self.find_kind(self.index, *kind) {
            Some(end) => Ok(copy_tokens(&self.lexer.tokens, self.index, end)),
            None => Err(ParseError::Peek(0)),
        }
    }

    /// The tokens from the cursor up to the first token of the kind `kind`
    /// on the same line.
    pub fn peek_till_kind_eol(&self, kind: &TokenType) -> (r: Result<Vec<Token>, ParseError>)
        ensures
            match r {
                Ok(v) => first_in_line(self.tokens(), self.index as int, *kind) >= 0 && toks(v@)
                    == self.tokens().subrange(
                    self.index as int,
                    first_in_line(self.tokens(), self.index as int, *kind),
                ),
                Err(e) => first_in_line(self.tokens(), self.index as int, *kind) == -1
                    && e.fault() == Fault::Peek(0),
            },
    {
        match self.find_in_line(self.index, *kind) {
            Some(end) => Ok(copy_tokens(&self.lexer.tokens, self.index, end)),
            None => Err(ParseError::Peek(0)),
        }
    }

    fn run_of(kinds: &Vec<TokenType>, from: usize) -> (r: usize)
        requires
            from < kinds.len(),
        ensures
            r == kind_run(kinds@, from as int),
            1 <= r <= kinds.len() - from,
        decreases kinds.len() - from,
    {
        if from + 1 < kinds.len() && kinds[from + 1] == kinds[from] {
            1 + Parser::run_of(kinds, from + 1)
        } else {
            1
        }
    }

    fn spells(&self, at: usize, kinds: &Vec<TokenType>, k: usize) -> (r: bool)
        ensures
            r == spells_kinds(self.tokens(), at as int, kinds@, k as int),
        decreases kinds.len() - k,
    {
        if k >= kinds.len() {
            return true;
        }
        if at >= self.lexer.tokens.len() || self.lexer.tokens[at].kind != kinds[k] {
            return false;
        }
        if kinds[k] == TokenType::Text {
            return self.spells(at + 1, kinds, k + 1);
        }
        let run = Parser::run_of(kinds, k);
        if self.token_len(&self.lexer.tokens[at]) != run {
            return false;
        }
        self.spells(at + 1, kinds, k + run)
    }

    /// The first index from the cursor on at which the tokens spell the
    /// kinds `kinds`: a token of text stands for one kind, any other token
    /// for as many equal kinds as it is long.
    pub fn peek_till_pattern(&self, kinds: &Vec<TokenType>) -> (r: Result<usize, ParseError>)
        ensures
            match r {
                Ok(i) => i == find_pattern(self.tokens(), self.index as int, kinds@),
                Err(e) => find_pattern(self.tokens(), self.index as int, kinds@) == -1
                    && e.fault() == Fault::CouldNotFindPattern,
            },
    {
        match self.pattern_from(self.index, kinds) {
            Some(i) => Ok(i),
            None => Err(ParseError::CouldNotFindPattern),
        }
    }

    fn pattern_from(&self, from: usize, kinds: &Vec<TokenType>) -> (r: Option<usize>)
        ensures
            match r {
                Some(i) => i == find_pattern(self.tokens(), from as int, kinds@) && from <= i
                    < self.tokens().len(),
                None => find_pattern(self.tokens(), from as int, kinds@) == -1,
            },
    {
        let ghost ts = self.tokens();
        let mut i: usize = from;
        while i < self.lexer.tokens.len()
            invariant
                from <= i,
                ts == self.tokens(),
                find_pattern(ts, i as int, kinds@) == find_pattern(ts, from as int, kinds@),
            decreases self.lexer.tokens.len() - i,
        {
            if self.spells(i, kinds, 0) {
                return Some(i);
            }
            i += 1;
        }
        None
    }

    fn text_of(&self, from: usize, to: usize) -> (s: String)
        requires
            from <= to <= self.lexer.tokens.len(),
        ensures
            s@ == text_between(self.tokens(), from as int, to as int),
    {
        let ghost ts = self.tokens();
        let mut s = String::new();
        let mut i: usize = from;
        proof {
            assert(ts.subrange(from as int, from as int) =~= Seq::empty());
        }
        while i < to
            invariant
                from <= i <= to <= self.lexer.tokens.len(),
                ts == self.tokens(),
                s@ == texts(ts.subrange(from as int, i as int)),
            decreases to - i,
        {
            proof {
                assert(ts.subrange(from as int, i + 1).drop_last() =~= ts.subrange(
                    from as int,
                    i as int,
                ));
            }
            push_chars(&mut s, &self.lexer.tokens[i].text);
            i += 1;
        }
        s
    }

    fn next_id(&mut self) -> (r: Result<u32, ParseError>)
        ensures
            final(self).same_source(old(self)),
            match r {
                Ok(id) => take_id(old(self).doc()) == Ok::<(u32, Doc), Fault>(
                    (id, final(self).doc()),
                ),
                Err(e) => take_id(old(self).doc()) == Err::<(u32, Doc), Fault>(e.fault()),
            },
    {
        if self.ids_issued == u32::MAX {
            return Err(ParseError::MathError);
        }
        let sum: u64 = self.id_seed as u64 + self.ids_issued as u64;
        let id: u32 = (sum % 0x1_0000_0000u64) as u32;
        self.ids_issued = self.ids_issued + 1;
        Ok(id)
    }

    fn text_element(&mut self, text: String) -> (r: Result<Element, ParseError>)
        ensures
            final(self).same_source(old(self)),
            match r {
                Ok(e) => make_text_of(old(self).doc(), text@) == Ok::<(Node, Doc), Fault>(
                    (e.model(), final(self).doc()),
                ),
                Err(e) => make_text_of(old(self).doc(), text@) == Err::<(Node, Doc), Fault>(
                    e.fault(),
                ),
            },
    {
        if self.state.new_line {
            let outer = self.next_id()?;
            let inner = self.next_id()?;
            let mut elm = Element::with_id(Kind::Paragraph, outer);
            let elm_txt = Element::build(Kind::Text, inner, Some(text), StrMap::new());
            elm.append_node(elm_txt);
            proof {
                assert(Seq::<Node>::empty().push(elm_txt.model()) =~= seq![elm_txt.model()]);
            }
            Ok(elm)
        } else {
            let id = self.next_id()?;
            Ok(Element::build(Kind::Text, id, Some(text), StrMap::new()))
        }
    }

    /// The element for the text of the token at the cursor: at the start of
    /// a line a paragraph that holds the text, elsewhere the text alone.
    pub fn make_text(&mut self) -> (r: Result<Element, ParseError>)
        ensures
            final(self).same_source(old(self)),
            match r {
                Ok(e) => make_text(old(self).tokens(), old(self).doc()) == Ok::<
                    (Node, Doc),
                    Fault,
                >((e.model(), final(self).doc())),
                Err(e) => make_text(old(self).tokens(), old(self).doc()) == Err::<
                    (Node, Doc),
                    Fault,
                >(e.fault()),
            },
    {
        let text = match self.current_token_chars() {
            Ok(c) => string_from_chars(c),
            Err(e) => {
                return Err(e);
            },
        };
        self.text_element(text)
    }

    fn append_text(&mut self) -> (r: Result<(), ParseError>)
        ensures
            final(self).same_source(old(self)),
            agrees(r, final(self).doc(), append_text(old(self).tokens(), old(self).doc())),
    {
        let elm = self.make_text()?;
        self.append_element(elm);
        Ok(())
    }

    fn append_new(&mut self, kind: Kind, text: Option<String>, attrs: StrMap) -> (r: Result<
        (),
        ParseError,
    >)
        ensures
            final(self).same_source(old(self)),
            agrees(
                r,
                final(self).doc(),
                append_with(old(self).doc(), kind.model(), opt_text(text), attrs@),
            ),
    {
        let id = self.next_id()?;
        self.append_element(Element::build(kind, id, text, attrs));
        Ok(())
    }

    fn append_kind(&mut self, kind: Kind) -> (r: Result<(), ParseError>)
        ensures
            final(self).same_source(old(self)),
            agrees(r, final(self).doc(), append_leaf(old(self).doc(), kind.model())),
    {
        let id = self.next_id()?;
        self.append_element(Element::with_id(kind, id));
        Ok(())
    }

    /// A run of tabs sets the indentation to its length.
    pub fn handle_tab(&mut self) -> (r: Result<(), ParseError>)
        ensures
            final(self).same_source(old(self)),
            agrees(r, final(self).doc(), handle_tab(old(self).tokens(), old(self).doc())),
    {
        let tabs = self.current_token_len()?;
        self.handle_tab_whitespace(tabs)
    }

    /// A run of spaces whose length is a multiple of four sets the
    /// indentation to a quarter of it; any other run is text.
    pub fn handle_whitespace(&mut self) -> (r: Result<(), ParseError>)
        ensures
            final(self).same_source(old(self)),
            agrees(r, final(self).doc(), handle_whitespace(old(self).tokens(), old(self).doc())),
    {
        let diff = self.current_token_len()?;
        if diff % 4 != 0 {
            return self.append_text();
        }
        self.handle_tab_whitespace(diff / 4)
    }

    /// Sets the indentation of the line.
    pub fn handle_tab_whitespace(&mut self, num: usize) -> (r: Result<(), ParseError>)
        ensures
            final(self).same_source(old(self)),
            r is Ok,
            final(self).doc() == (Doc { indent_level: num as int, ..old(self).doc() }),
    {
        self.state.indent_level = num;
        Ok(())
    }

    /// A run of `#` is a header whose level is the length of the run.
    pub fn handle_hash(&mut self) -> (r: Result<(), ParseError>)
        ensures
            final(self).same_source(old(self)),
            agrees(r, final(self).doc(), handle_hash(old(self).tokens(), old(self).doc())),
    {
        let num = self.current_token_len()?;
        let mut attrs = StrMap::new();
        attrs.insert("level", usize_to_string(num));
        self.append_new(Kind::Header, None, attrs)
    }

    /// At the start of a line one `-` is a list item at the current
    /// indentation, and three before a line break are a rule. Any other run
    /// is text.
    pub fn handle_dash(&mut self) -> (r: Result<(), ParseError>)
        ensures
            final(self).same_source(old(self)),
            agrees(r, final(self).doc(), handle_dash(old(self).tokens(), old(self).doc())),
    {
        let diff = self.current_token_len()?;
        if self.state.new_line {
            if diff == 1 {
                let mut attrs = StrMap::new();
                attrs.insert("level", usize_to_string(self.state.indent_level));
                return self.append_new(Kind::ListItem, None, attrs);
            } else if diff == 3 {
                let next = match self.peek(1) {
                    Ok(t) => t.kind,
                    Err(e) => {
                        return Err(e);
                    },
                };
                if next == TokenType::EndOfLine {
                    return self.append_kind(Kind::HorizontalRule);
                }
            }
        }
        self.append_text()
    }

    /// Reads the block of a custom element, from the cursor on its `%`. The
    /// cursor ends on the `}}` that closes the block.
    pub fn make_custom(&mut self) -> (r: Result<CustomElm, ParseError>)
        ensures
            final(self).same_source(old(self)),
            match r {
                Ok(c) => make_custom(old(self).tokens(), old(self).doc()) == Ok::<
                    (CustomModel, Doc),
                    Fault,
                >((c.model(), final(self).doc())),
                Err(e) => make_custom(old(self).tokens(), old(self).doc()) == Err::<
                    (CustomModel, Doc),
                    Fault,
                >(e.fault()),
            },
    {
        self.step(2)?;
        let mut pattern: Vec<TokenType> = Vec::new();
        pattern.push(TokenType::EndOfLine);
        pattern.push(TokenType::CurlybraceRight);
        pattern.push(TokenType::CurlybraceRight);
        pattern.push(TokenType::EndOfLine);
        let mut pattern_or: Vec<TokenType> = Vec::new();
        pattern_or.push(TokenType::EndOfLine);
        pattern_or.push(TokenType::CurlybraceRight);
        pattern_or.push(TokenType::CurlybraceRight);
        pattern_or.push(TokenType::EndOfFile);
        proof {
            assert(pattern@ =~= custom_end());
            assert(pattern_or@ =~= custom_end_of_file());
        }
        let end: usize = match self.pattern_from(self.index, &pattern) {
            Some(e) => e,
            None => match self.pattern_from(self.index, &pattern_or) {
                Some(e) => e,
                None => {
                    return Err(ParseError::CouldNotFindPattern);
                },
            },
        };
        let inside_str = self.text_of(self.index, end);
        self.step(end - self.index + 1)?;
        match CustomElm::from_string(inside_str.as_str()) {
            Ok(c) => Ok(c),
            Err(e) => Err(ParseError::CustomElementError(e)),
        }
    }

    /// A `%` at the start of a line, before `{{`, opens a custom element.
    /// Any other `%` is text.
    pub fn handle_precent(&mut self) -> (r: Result<(), ParseError>)
        ensures
            final(self).same_source(old(self)),
            agrees(r, final(self).doc(), handle_percent(old(self).tokens(), old(self).doc())),
    {
        let (is_curlybrace, is_2_len) = match self.peek(1) {
            Ok(t) => (t.kind == TokenType::CurlybraceLeft, self.token_len(t) == 2),
            Err(e) => {
                return Err(e);
            },
        };
        if self.state.new_line && is_curlybrace && is_2_len {
            let c = self.make_custom()?;
            let id = self.next_id()?;
            self.append_element(Element::with_id(Kind::CustomElement(c), id));
            self.has_custom = true;
            return Ok(());
        }
        self.append_text()
    }

    /// One backtick opens inline code. Three open a block of code that runs
    /// to the next backtick: what stands before its first line break is the
    /// language, the rest is the code. Any other run is text.
    pub fn handle_backtick(&mut self) -> (r: Result<(), ParseError>)
        ensures
            final(self).same_source(old(self)),
            agrees(r, final(self).doc(), handle_backtick(old(self).tokens(), old(self).doc())),
    {
        let len = self.current_token_len()?;
        if len == 1 {
            return self.handle_container_text(TokenType::Backtick);
        } else if len == 3 {
            let count: usize = self.lexer.tokens.len();
            if self.index + 1 >= count {
                return Err(ParseError::Move(self.index + 1));
            }
            let close: usize = match self.find_kind(self.index + 1, TokenType::Backtick) {
                Some(c) => c,
                None => {
                    return Err(ParseError::Peek(0));
                },
            };
            let eol: usize = match self.find_kind(self.index + 1, TokenType::EndOfLine) {
                Some(e) => e,
                None => {
                    return Err(ParseError::Peek(0));
                },
            };
            if eol >= close {
                return Err(ParseError::Peek(0));
            }
            let lang = self.text_of(self.index + 1, eol);
            let code = self.text_of(eol, close);
            let mut attrs = StrMap::new();
            attrs.insert("lang", lang);
            self.index = close;
            return self.append_new(Kind::BlockCode, Some(code), attrs);
        }
        self.append_text()
    }

    /// A run of `$`, or one backtick, opens a container whose inside is kept
    /// as text. Where no marker of its kind closes it on its line, the run is
    /// text.
    pub fn handle_container_text(&mut self, kind: TokenType) -> (r: Result<(), ParseError>)
        ensures
            final(self).same_source(old(self)),
            agrees(
                r,
                final(self).doc(),
                handle_container_text(old(self).tokens(), old(self).doc(), kind),
            ),
    {
        let len = self.current_token_len()?;
        let elm_kind = if kind == TokenType::DollarSign && len == 1 {
            Kind::InlineLaTeX
        } else if kind == TokenType::DollarSign && len == 2 {
            Kind::BlockLaTeX
        } else if kind == TokenType::Backtick && len == 1 {
            Kind::InlineCode
        } else {
            return self.append_text();
        };
        let count: usize = self.lexer.tokens.len();
        if self.index + 1 >= count {
            return Err(ParseError::Move(self.index + 1));
        }
        match self.find_in_line(self.index + 1, kind) {
            None => self.append_text(),
            Some(close) => {
                let text = self.text_of(self.index + 1, close);
                self.index = close;
                self.append_new(elm_kind, Some(text), StrMap::new())
            },
        }
    }

    /// Parses the tokens from the cursor up to `close`, each in its turn.
    /// The cursor ends at `close` or after it, or on the last token of the
    /// stream.
    pub fn parse_span(&mut self, close: usize) -> (r: Result<(), ParseError>)
        ensures
            final(self).same_source(old(self)),
            agrees(
                r,
                final(self).doc(),
                parse_span(old(self).tokens(), old(self).doc(), close as int),
            ),
        decreases old(self).lexer.tokens.len() - old(self).index, 3int,
    {
        if self.index >= close || self.index >= self.lexer.tokens.len() {
            return Ok(());
        }
        let start: usize = self.index;
        self.parse_token()?;
        let count: usize = self.lexer.tokens.len();
        if start <= self.index && self.index < count - 1 {
            self.index = self.index + 1;
            self.parse_span(close)
        } else {
            Ok(())
        }
    }

    /// A run of one, two or three `*` or `_` opens a container that a marker
    /// of its kind closes on the same line; what stands between the two is
    /// parsed into the container. Where nothing closes it, and for a longer
    /// run, the run is text.
    pub fn handle_container(&mut self, kind: TokenType) -> (r: Result<(), ParseError>)
        ensures
            final(self).same_source(old(self)),
            agrees(
                r,
                final(self).doc(),
                handle_container(old(self).tokens(), old(self).doc(), kind),
            ),
        decreases old(self).lexer.tokens.len() - old(self).index, 1int,
    {
        let len = self.current_token_len()?;
        let elm_kind = if len == 1 {
            Kind::Italic
        } else if len == 2 {
            Kind::Bold
        } else if len == 3 {
            Kind::BoldItalic
        } else {
            return self.append_text();
        };
        let count: usize = self.lexer.tokens.len();
        if self.index + 1 >= count {
            return Err(ParseError::Move(self.index + 1));
        }
        match self.find_in_line(self.index + 1, kind) {
            None => self.append_text(),
            Some(close) => {
                let id = self.next_id()?;
                self.append_element(Element::with_id(elm_kind, id));
                self.state.inside.push(id);
                self.index = self.index + 1;
                self.parse_span(close)?;
                self.state.inside.pop();
                Ok(())
            },
        }
    }

    /// A list number is an item of an ordered list, with its digits and the
    /// current indentation.
    pub fn handle_num(&mut self) -> (r: Result<(), ParseError>)
        ensures
            final(self).same_source(old(self)),
            agrees(r, final(self).doc(), handle_num(old(self).tokens(), old(self).doc())),
    {
        let num = match self.current_token_chars() {
            Ok(chars) => {
                let mut digits: Vec<char> = Vec::new();
                let mut i: usize = 0;
                proof {
                    assert(chars@.take(0) =~= Seq::empty());
                }
                while i < chars.len()
                    invariant
                        i <= chars.len(),
                        digits@ == digits_of(chars@.take(i as int)),
                    decreases chars.len() - i,
                {
                    proof {
                        assert(chars@.take(i + 1).drop_last() =~= chars@.take(i as int));
                    }
                    let c = chars[i];
                    if c >= '0' && c <= '9' {
                        digits.push(c);
                    }
                    i += 1;
                }
                proof {
                    assert(chars@.take(chars.len() as int) =~= chars@);
                }
                string_from_chars(&digits)
            },
            Err(e) => {
                return Err(e);
            },
        };
        let mut attrs = StrMap::new();
        attrs.insert("num", num);
        attrs.insert("level", usize_to_string(self.state.indent_level));
        self.append_new(Kind::OrderedListElement, None, attrs)
    }

    /// The text and the target of the link whose `[` is at `open`, and the
    /// index of the `)` that closes it.
    pub fn get_url(&self, open: usize) -> (r: Option<(String, String, usize)>)
        requires
            open < self.lexer.tokens.len(),
        ensures
            match r {
                Some((text, url, end)) => link_at(self.tokens(), open as int) == Some(
                    (text@, url@, end as int),
                ) && end < self.tokens().len(),
                None => link_at(self.tokens(), open as int) is None,
            },
    {
        let close: usize = match self.find_in_line(open + 1, TokenType::BracketRight) {
            Some(c) => c,
            None => {
                return None;
            },
        };
        if close + 1 >= self.lexer.tokens.len() || self.lexer.tokens[close + 1].kind
            != TokenType::ParenthesisLeft {
            return None;
        }
        let end: usize = match self.find_in_line(close + 2, TokenType::ParenthesisRight) {
            Some(e) => e,
            None => {
                return None;
            },
        };
        Some((self.text_of(open + 1, close), self.text_of(close + 2, end), end))
    }

    fn append_link(&mut self, open: usize, kind: Kind) -> (r: Result<(), ParseError>)
        requires
            open < old(self).lexer.tokens.len(),
        ensures
            final(self).same_source(old(self)),
            agrees(
                r,
                final(self).doc(),
                append_link(old(self).tokens(), old(self).doc(), open as int, kind.model()),
            ),
    {
        match self.get_url(open) {
            None => self.append_text(),
            Some((text, url, end)) => {
                let mut attrs = StrMap::new();
                attrs.insert("link", url);
                self.index = end;
                self.append_new(kind, Some(text), attrs)
            },
        }
    }

    /// `[` opens a link. Where the tokens are no link, the `[` is text.
    pub fn handle_bracket(&mut self) -> (r: Result<(), ParseError>)
        requires
            old(self).index < old(self).lexer.tokens.len(),
        ensures
            final(self).same_source(old(self)),
            agrees(r, final(self).doc(), handle_bracket(old(self).tokens(), old(self).doc())),
    {
        self.append_link(self.index, Kind::Link)
    }

    /// `!` before `[` opens the preview of a file. Any other `!` is text.
    pub fn handle_exclamation(&mut self) -> (r: Result<(), ParseError>)
        ensures
            final(self).same_source(old(self)),
            agrees(r, final(self).doc(), handle_exclamation(old(self).tokens(), old(self).doc())),
    {
        let count: usize = self.lexer.tokens.len();
        let follows = match self.peek(1) {
            Ok(t) => t.kind == TokenType::BracketLeft,
            Err(_) => false,
        };
        if !follows {
            return self.append_text();
        }
        self.append_link(self.index + 1, Kind::FilePrev)
    }

    /// Keeps the text of the front matter and moves the cursor before the
    /// token that closes it.
    pub fn handle_frontmatter(&mut self) -> (r: Result<(), ParseError>)
        ensures
            final(self).same_source(old(self)),
            agrees(r, final(self).doc(), handle_frontmatter(old(self).tokens(), old(self).doc())),
    {
        let close: usize = match self.find_kind(self.index, TokenType::FrontmatterEnd) {
            Some(c) => c,
            None => {
                return Err(ParseError::Peek(0));
            },
        };
        let count: usize = self.lexer.tokens.len();
        if close <= self.index + 1 {
            self.frontmatter_text = Some(String::new());
        } else {
            self.frontmatter_text = Some(self.text_of(self.index + 1, close - 1));
        }
        if close > self.index {
            self.index = close - 1;
        }
        Ok(())
    }

    /// Parses the token at the cursor. The cursor ends on the last token
    /// that was taken in.
    pub fn parse_token(&mut self) -> (r: Result<(), ParseError>)
        ensures
            final(self).same_source(old(self)),
            agrees(r, final(self).doc(), parse_token(old(self).tokens(), old(self).doc())),
        decreases old(self).lexer.tokens.len() - old(self).index, 2int,
    {
        let kind = match self.current_token() {
            Ok(t) => t.kind,
            Err(e) => {
                return Err(e);
            },
        };
        match kind {
            TokenType::Text | TokenType::CurlybraceLeft | TokenType::CurlybraceRight => {
                self.append_text()
            },
            TokenType::EndOfLine => self.append_kind(Kind::EndOfLine),
            TokenType::Tab => self.handle_tab(),
            TokenType::Whitespace => self.handle_whitespace(),
            TokenType::Hash => self.handle_hash(),
            TokenType::Percent => self.handle_precent(),
            TokenType::Dash => self.handle_dash(),
            TokenType::ListNumber => self.handle_num(),
            TokenType::GreaterThan => self.append_kind(Kind::Blockquote),
            TokenType::Asterisk => self.handle_container(TokenType::Asterisk),
            TokenType::Backtick => self.handle_backtick(),
            TokenType::DollarSign => self.handle_container_text(TokenType::DollarSign),
            TokenType::Underscore => self.handle_container(TokenType::Underscore),
            TokenType::BracketLeft => self.handle_bracket(),
            TokenType::Exclamation => self.handle_exclamation(),
            TokenType::FrontmatterStart => self.handle_frontmatter(),
            _ => Ok(()),
        }
    }

    /// Parses the token stream from the token after the cursor on, up to the
    /// end of the stream, and closes the document.
    pub fn parse(&mut self) -> (r: Result<(), ParseError>)
        ensures
            final(self).same_source(old(self)),
            agrees(r, final(self).doc(), parse_from(old(self).tokens(), old(self).doc())),
    {
        let ghost ts = self.tokens();
        loop
            invariant_except_break
                self.same_source(old(self)),
                ts == self.tokens(),
                parse_from(ts, self.doc()) == parse_from(ts, old(self).doc()),
            ensures
                self.same_source(old(self)),
                ts == self.tokens(),
                parse_from(ts, old(self).doc()) == Ok::<Doc, Fault>(finish(self.doc())),
            decreases self.lexer.tokens.len() - self.index,
        {
            let start: usize = self.index;
            if self.step(1).is_err() {
                break ;
            }
            if self.lexer.tokens[self.index].kind == TokenType::EndOfFile {
                break ;
            }
            self.parse_token()?;
            if !(start < self.index && self.index < self.lexer.tokens.len()) {
                break ;
            }
        }
        let open = self.current_element.take();
        if let Some(elm) = open {
            proof {
                lemma_nodes_push(self.ast.elements@, elm);
            }
            self.ast.elements.push(elm);
        }
        Ok(())
    }
}

} // verus!
