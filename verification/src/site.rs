//! The documents of a site, taken through the pipeline together.

use vstd::prelude::*;
use crate::frontmatter::FrontMatterModel;
use crate::lex_model::{lex, without_cr, LexerError};
use crate::lexer::{Lexer, MarkdownFile};
use crate::parse_model::{parse_from, Doc, Fault};
use crate::parser::{ParseError, Parser};
use crate::plugins::site;
use crate::resolve::parse_custom;
use crate::resolve_model::resolve;
use crate::token::{toks, Tok};

verus! {

/// Why a file is no document.
#[derive(Debug)]
pub enum MarkdownFileError {
    IsFileError(String),
    NotMarkdownError(String),
    ErrorLoadingFile(String),
    NotDirectoryError(String),
}

/// The ending of the name of a file names markdown: it is `md` or
/// `markdown`, in any case of its letters.
pub open spec fn markdown_ending(ending: Seq<char>) -> bool {
    crate::text::same_ignoring_ascii_case(ending, seq!['m', 'd'])
        || crate::text::same_ignoring_ascii_case(
        ending,
        seq!['m', 'a', 'r', 'k', 'd', 'o', 'w', 'n'],
    )
}

/// Whether the ending of the name of a file names markdown.
pub fn is_markdown(ending: &str) -> (r: bool)
    ensures
        r == markdown_ending(ending@),
{
    let a = crate::text::chars_of(ending);
    let md = crate::text::chars_of("md");
    let markdown = crate::text::chars_of("markdown");
    proof {
        reveal_strlit("md");
        reveal_strlit("markdown");
        assert(md@ =~= seq!['m', 'd']);
        assert(markdown@ =~= seq!['m', 'a', 'r', 'k', 'd', 'o', 'w', 'n']);
    }
    crate::text::equal_ignoring_ascii_case(&a, &md) || crate::text::equal_ignoring_ascii_case(
        &a,
        &markdown,
    )
}

/// Lexes every file. Fails with the error and the index of the first file
/// that cannot be lexed.
pub fn run_lexer(files: Vec<MarkdownFile>) -> (r: Result<Vec<Lexer>, (usize, LexerError)>)
    ensures
        match r {
            Ok(lexers) => lexers.len() == files.len() && forall|i: int|
                0 <= i < files.len() ==> lex(without_cr(files[i].content@)) == Ok::<
                    Seq<Tok>,
                    LexerError,
                >(toks((#[trigger] lexers[i]).tokens@)) && lexers[i].path == files[i].path,
            Err((at, e)) => at < files.len() && lex(without_cr(files[at as int].content@)) == Err::<
                Seq<Tok>,
                LexerError,
            >(e) && forall|i: int|
                0 <= i < at ==> lex(without_cr((#[trigger] files[i]).content@)) is Ok,
        },
{
    let ghost given = files@;
    let mut pending = files;
    let mut out: Vec<Lexer> = Vec::new();
    let n: usize = pending.len();
    let mut rest: Vec<MarkdownFile> = Vec::new();
    while pending.len() > 0
        invariant
            rest.len() + pending.len() == n == given.len(),
            forall|i: int| 0 <= i < pending.len() ==> pending[i] == given[i],
            forall|i: int|
                0 <= i < rest.len() ==> (#[trigger] rest[i]) == given[given.len() - 1 - i],
        decreases pending.len(),
    {
        let f = pending.pop().unwrap();
        rest.push(f);
    }
    while rest.len() > 0
        invariant
            given == files@,
            out.len() + rest.len() == n == given.len(),
            forall|i: int|
                0 <= i < rest.len() ==> (#[trigger] rest[i]) == given[given.len() - 1 - i],
            forall|i: int|
                0 <= i < out.len() ==> lex(without_cr(given[i].content@)) == Ok::<
                    Seq<Tok>,
                    LexerError,
                >(toks((#[trigger] out[i]).tokens@)) && out[i].path == given[i].path,
        decreases rest.len(),
    {
        let at: usize = out.len();
        let file = rest.pop().unwrap();
        assert(file == given[at as int]);
        let mut lexer = Lexer::new(file);
        match lexer.run_lexer() {
            Err(e) => {
                proof {
                    assert forall|i: int| 0 <= i < at implies lex(
                        without_cr((#[trigger] files[i]).content@),
                    ) is Ok by {
                        assert(out[i].path == given[i].path);
                    }
                }
                return Err((at, e));
            },
            Ok(_) => {},
        }
        out.push(lexer);
    }
    Ok(out)
}

/// The document is what parsing makes of its token stream.
pub open spec fn parsed(p: Parser) -> bool {
    exists|seed: u32|
        #[trigger] parse_from(p.tokens(), Parser::initial_doc(seed)) == Ok::<Doc, Fault>(p.doc())
}

/// Parses the token stream of every lexer. Fails with the error and the
/// index of the first document that cannot be parsed.
pub fn run_parser(lexers: Vec<Lexer>) -> (r: Result<Vec<Parser>, (usize, ParseError)>)
    ensures
        match r {
            Ok(parsers) => parsers.len() == lexers.len() && forall|i: int|
                0 <= i < lexers.len() ==> (#[trigger] parsers[i]).lexer == lexers[i] && parsed(
                    parsers[i],
                ),
            Err((at, e)) => at < lexers.len() && exists|seed: u32|
                #[trigger] parse_from(toks(lexers[at as int].tokens@), Parser::initial_doc(seed))
                    == Err::<Doc, Fault>(e.fault()),
        },
{
    let ghost given = lexers@;
    let mut pending = lexers;
    let n: usize = pending.len();
    let mut rest: Vec<Lexer> = Vec::new();
    while pending.len() > 0
        invariant
            rest.len() + pending.len() == n == given.len(),
            forall|i: int| 0 <= i < pending.len() ==> pending[i] == given[i],
            forall|i: int|
                0 <= i < rest.len() ==> (#[trigger] rest[i]) == given[given.len() - 1 - i],
        decreases pending.len(),
    {
        let l = pending.pop().unwrap();
        rest.push(l);
    }
    let mut out: Vec<Parser> = Vec::new();
    while rest.len() > 0
        invariant
            out.len() + rest.len() == n == given.len(),
            forall|i: int|
                0 <= i < rest.len() ==> (#[trigger] rest[i]) == given[given.len() - 1 - i],
            given == lexers@,
            forall|i: int|
                0 <= i < out.len() ==> (#[trigger] out[i]).lexer == given[i] && parsed(out[i]),
        decreases rest.len(),
    {
        let at: usize = out.len();
        let lexer = rest.pop().unwrap();
        let mut parser = Parser::new(lexer);
        let ghost seed = parser.id_seed;
        match parser.parse() {
            Err(e) => {
                proof {
                    assert(parse_from(
                        toks(lexers[at as int].tokens@),
                        Parser::initial_doc(seed),
                    ) == Err::<Doc, Fault>(e.fault()));
                }
                return Err((at, e));
            },
            Ok(_) => {},
        }
        proof {
            assert(parse_from(parser.tokens(), Parser::initial_doc(seed)) == Ok::<Doc, Fault>(
                parser.doc(),
            ));
        }
        out.push(parser);
    }
    Ok(out)
}

/// The metadata of the documents, with none in the place `at`.
pub open spec fn others_of(all: Seq<FrontMatterModel>, at: int) -> Seq<Option<FrontMatterModel>> {
    Seq::new(
        all.len(),
        |i: int|
            if i == at {
                None
            } else {
                Some(all[i])
            },
    )
}

/// The metadata of a list of documents.
pub open spec fn metadata_of(parsers: Seq<Parser>) -> Seq<FrontMatterModel> {
    Seq::new(parsers.len(), |i: int| parsers[i].metadata.frontmatter.model())
}

/// The document `p` is `given` with its custom elements expanded, where the
/// document is the one at `i` among documents with the metadata `meta`.
pub open spec fn expanded(p: Parser, given: Parser, meta: Seq<FrontMatterModel>, i: int) -> bool {
    p.same_source(&given) && resolve(
        given.doc(),
        given.metadata.frontmatter.model(),
        others_of(meta, i),
    ) == Ok::<Doc, Fault>(p.doc())
}

/// The slot holds a document that reads what `given` reads.
pub open spec fn holds(slot: Option<Parser>, given: Parser) -> bool {
    match slot {
        Some(p) => p.same_source(&given),
        None => false,
    }
}

/// The slot holds `given` with its custom elements expanded.
pub open spec fn holds_expanded(
    slot: Option<Parser>,
    given: Parser,
    meta: Seq<FrontMatterModel>,
    i: int,
) -> bool {
    match slot {
        Some(p) => expanded(p, given, meta, i),
        None => false,
    }
}

/// Expands the custom elements of every document; each document sees the
/// metadata of all others. Fails with the error and the index of the first
/// document that cannot be expanded.
pub fn resolve_all(parsers: Vec<Parser>) -> (r: Result<Vec<Parser>, (usize, ParseError)>)
    ensures
        match r {
            Ok(done) => done.len() == parsers.len() && forall|i: int|
                0 <= i < parsers.len() ==> expanded(
                    #[trigger] done[i],
                    parsers[i],
                    metadata_of(parsers@),
                    i,
                ),
            Err((at, e)) => at < parsers.len() && resolve(
                parsers[at as int].doc(),
                parsers[at as int].metadata.frontmatter.model(),
                others_of(metadata_of(parsers@), at as int),
            ) == Err::<Doc, Fault>(e.fault()),
        },
{
    let ghost given = parsers@;
    let ghost meta = metadata_of(parsers@);
    let mut pending = parsers;
    let n: usize = pending.len();
    let mut slots: Vec<Option<Parser>> = Vec::new();
    let mut rest: Vec<Parser> = Vec::new();
    while pending.len() > 0
        invariant
            rest.len() + pending.len() == n == given.len(),
            forall|i: int| 0 <= i < pending.len() ==> pending[i] == given[i],
            forall|i: int|
                0 <= i < rest.len() ==> (#[trigger] rest[i]) == given[given.len() - 1 - i],
        decreases pending.len(),
    {
        let p = pending.pop().unwrap();
        rest.push(p);
    }
    while rest.len() > 0
        invariant
            slots.len() + rest.len() == n == given.len(),
            forall|i: int|
                0 <= i < rest.len() ==> (#[trigger] rest[i]) == given[given.len() - 1 - i],
            forall|i: int| 0 <= i < slots.len() ==> (#[trigger] slots[i]) == Some(given[i]),
        decreases rest.len(),
    {
        let p = rest.pop().unwrap();
        slots.push(Some(p));
    }
    let mut index: usize = 0;
    while index < n
        invariant
            index <= n == slots.len() == given.len(),
            given == parsers@,
            meta == metadata_of(given),
            forall|i: int| 0 <= i < n ==> holds(#[trigger] slots[i], given[i]),
            forall|i: int|
                0 <= i < index ==> holds_expanded(#[trigger] slots[i], given[i], meta, i),
            forall|i: int| index <= i < n ==> (#[trigger] slots[i]) == Some(given[i]),
        decreases n - index,
    {
        let mut taken: Option<Parser> = None;
        std::mem::swap(&mut slots[index], &mut taken);
        let file = taken.unwrap();
        proof {
            assert(site(slots@) =~= others_of(meta, index as int)) by {
                assert forall|i: int| 0 <= i < n implies site(slots@)[i] == others_of(
                    meta,
                    index as int,
                )[i] by {
                    if i != index {
                        assert(holds(slots[i], given[i]));
                    }
                }
            }
        }
        match parse_custom(file, &slots) {
            Err(e) => {
                return Err((index, e));
            },
            Ok(done) => {
                slots[index] = Some(done);
            },
        }
        index += 1;
    }
    let mut out: Vec<Parser> = Vec::new();
    let mut back: Vec<Parser> = Vec::new();
    while slots.len() > 0
        invariant
            back.len() + slots.len() == n == given.len(),
            forall|i: int|
                0 <= i < slots.len() ==> holds_expanded(#[trigger] slots[i], given[i], meta, i),
            forall|i: int|
                0 <= i < back.len() ==> expanded(
                    #[trigger] back[i],
                    given[given.len() - 1 - i],
                    meta,
                    given.len() - 1 - i,
                ),
        decreases slots.len(),
    {
        let p = slots.pop().unwrap().unwrap();
        back.push(p);
    }
    while back.len() > 0
        invariant
            out.len() + back.len() == n == given.len(),
            forall|i: int|
                0 <= i < back.len() ==> expanded(
                    #[trigger] back[i],
                    given[given.len() - 1 - i],
                    meta,
                    given.len() - 1 - i,
                ),
            forall|i: int| 0 <= i < out.len() ==> expanded(#[trigger] out[i], given[i], meta, i),
        decreases back.len(),
    {
        let p = back.pop().unwrap();
        out.push(p);
    }
    Ok(out)
}

} // verus!
