//! What the expansion of custom elements computes, as functions on the
//! document tree and the metadata of the documents of a site.

use vstd::prelude::*;
use crate::custom::CustomModel;
use crate::frontmatter::{lookup, merged, FrontMatterModel};
use crate::lex_model::is_digit;
use crate::parse_model::{id_at, Doc, Fault};
use crate::text::same_ignoring_ascii_case;
use crate::tree::{find_in, leaf, update_first, KindModel, Node};

verus! {

/// The plugins that a custom element can name.
pub enum PluginTag {
    Navbar,
    BlogList,
}

/// The name of the navigation menu.
pub open spec fn navbar_name() -> Seq<char> {
    "navbar"@
}

/// The name of the custom element that wraps the entries of a menu.
pub open spec fn navbar_wrapper_name() -> Seq<char> {
    "bismuth_navbar_wrapper"@
}

/// The name of the custom element of one entry of a menu.
pub open spec fn navbar_item_name() -> Seq<char> {
    "bismuth_navbar_item"@
}

/// The name of the custom element that wraps a listing of posts.
pub open spec fn blog_wrapper_name() -> Seq<char> {
    "builtin_blog_wrapper"@
}

/// The name of the custom element of one post of a listing.
pub open spec fn blog_item_name() -> Seq<char> {
    "builtin_blogitem"@
}

/// The name of the footer.
pub open spec fn footer_name() -> Seq<char> {
    "footer"@
}

/// The plugin that the name of a custom element stands for.
pub open spec fn plugin_of(name: Seq<char>) -> Option<PluginTag> {
    if name == navbar_name() {
        Some(PluginTag::Navbar)
    } else if name == "blog list"@ || name == "blogs"@ || name == "bloglist"@ {
        Some(PluginTag::BlogList)
    } else {
        None
    }
}

/// The template of the footer.
pub open spec fn footer_template() -> Seq<char> {
    "<h1>Test template</h1>"@
}

/// The template of one post of a listing.
pub open spec fn blog_item_template() -> Seq<char> {
    "<li class=\"blog-item\"><a href=\"{url}\">{title}</a> <span class=\"date\">{date}</span></li>\n"@
}

/// The template that wraps a listing of posts.
pub open spec fn blog_wrapper_template() -> Seq<char> {
    "<ul class=\"blog-list\">\n{elements}</ul>\n"@
}

/// The template of one entry of a menu.
pub open spec fn navbar_item_template() -> Seq<char> {
    "<li class=\"navbar-item\" data-enabled=\"{enabled}\"><a href=\"/{url}\">{title}</a></li>\n"@
}

/// The template that wraps the entries of a menu.
pub open spec fn navbar_wrapper_template() -> Seq<char> {
    "<nav class=\"navbar\"><ul>\n{elements}</ul></nav>\n"@
}

/// The template that the name of a custom element stands for.
pub open spec fn template_of(name: Seq<char>) -> Option<Seq<char>> {
    if name == footer_name() {
        Some(footer_template())
    } else if name == blog_item_name() {
        Some(blog_item_template())
    } else if name == blog_wrapper_name() {
        Some(blog_wrapper_template())
    } else if name == navbar_item_name() {
        Some(navbar_item_template())
    } else if name == navbar_wrapper_name() {
        Some(navbar_wrapper_template())
    } else {
        None
    }
}

/// The ids of the custom elements among the nodes and below them, in the
/// order of a walk that visits a node before its children.
pub open spec fn custom_ids(ns: Seq<Node>) -> Seq<u32>
    decreases ns,
{
    if ns.len() == 0 {
        Seq::empty()
    } else {
        let first = ns[0];
        (if first.kind is CustomElement {
            seq![first.id]
        } else {
            Seq::empty()
        }) + custom_ids(first.children) + custom_ids(ns.drop_first())
    }
}

/// The ids of `ids` that are not among `seen`.
pub open spec fn unseen(ids: Seq<u32>, seen: Seq<u32>) -> Seq<u32>
    decreases ids.len(),
{
    if ids.len() == 0 {
        Seq::empty()
    } else if seen.contains(ids.last()) {
        unseen(ids.drop_last(), seen)
    } else {
        unseen(ids.drop_last(), seen).push(ids.last())
    }
}

/// The tree with `child` added as the last child of the first node with the
/// id `id`. A tree without such a node stays as it is.
pub open spec fn add_child(ast: Seq<Node>, id: u32, child: Node) -> Seq<Node> {
    match find_in(ast, id) {
        Some(n) => update_first(ast, id, Node { children: n.children.push(child), ..n }),
        None => ast,
    }
}

/// The tree with the template `t` set in the first node with the id `id`,
/// where that is a custom element.
pub open spec fn set_template(ast: Seq<Node>, id: u32, t: Seq<char>) -> Seq<Node> {
    match find_in(ast, id) {
        Some(n) => match n.kind {
            KindModel::CustomElement(c) => update_first(
                ast,
                id,
                Node {
                    kind: KindModel::CustomElement(CustomModel { template: Some(t), ..c }),
                    ..n
                },
            ),
            _ => ast,
        },
        None => ast,
    }
}

/// A custom element that a plugin puts into the tree.
pub open spec fn custom_node(
    name: Seq<char>,
    values: Map<Seq<char>, Seq<char>>,
    children: Seq<Node>,
    id: u32,
) -> Node {
    Node {
        children,
        ..leaf(
            KindModel::CustomElement(
                CustomModel { name, values, body: None, template: None },
            ),
            id,
        )
    }
}

/// The value of an optional text; the empty text where it has none.
pub open spec fn or_empty(o: Option<Seq<char>>) -> Seq<char> {
    match o {
        Some(s) => s,
        None => Seq::empty(),
    }
}

/// The value of `key` among the values of a document.
pub open spec fn value_of(fm: FrontMatterModel, key: Seq<char>) -> Option<Seq<char>> {
    match fm.values {
        Some(maps) => lookup(maps, key, 0),
        None => None,
    }
}

/// The text says `true`, in any case of its letters.
pub open spec fn says_true(v: Seq<char>) -> bool {
    same_ignoring_ascii_case(v, seq!['t', 'r', 'u', 'e'])
}

/// The number that a run of digits stands for.
pub open spec fn digits_value(s: Seq<char>) -> nat
    decreases s.len(),
{
    if s.len() == 0 {
        0
    } else {
        digits_value(s.drop_last()) * 10 + ((s.last() as int) - 48) as nat
    }
}

/// All characters are digits.
pub open spec fn all_digits(s: Seq<char>) -> bool {
    forall|i: int| 0 <= i < s.len() ==> is_digit(#[trigger] s[i])
}

/// The integer that a text stands for: digits after an optional sign, within
/// the range of 32 bits; `None` for any other text.
pub open spec fn int_of(s: Seq<char>) -> Option<int> {
    if s.len() == 0 {
        None
    } else {
        let signed = s[0] == '-' || s[0] == '+';
        let digits = if signed {
            s.skip(1)
        } else {
            s
        };
        if digits.len() == 0 || !all_digits(digits) {
            None
        } else {
            let v = if s[0] == '-' {
                -(digits_value(digits) as int)
            } else {
                digits_value(digits) as int
            };
            if i32::MIN <= v <= i32::MAX {
                Some(v)
            } else {
                None
            }
        }
    }
}

/// One page of a navigation menu.
pub struct PageModel {
    pub path: Seq<char>,
    pub title: Seq<char>,
    pub order: int,
    pub is_current: bool,
}

/// The document asks to be in the navigation menu.
pub open spec fn in_navbar(fm: FrontMatterModel) -> bool {
    says_true(or_empty(value_of(fm, "navbar_include"@)))
}

/// The documents of `others` from `from` on that ask to be in the menu.
pub open spec fn navbar_others(others: Seq<Option<FrontMatterModel>>, from: int) -> Seq<
    FrontMatterModel,
>
    decreases others.len() - from,
{
    if from < 0 || from >= others.len() {
        Seq::empty()
    } else {
        (match others[from] {
            Some(fm) => if in_navbar(fm) {
                seq![fm]
            } else {
                Seq::empty()
            },
            None => Seq::empty(),
        }) + navbar_others(others, from + 1)
    }
}

/// The pages of the menu of the document `own`: the other documents that ask
/// to be in it, and then the document itself where its values ask for it.
pub open spec fn navbar_pages(others: Seq<Option<FrontMatterModel>>, own: FrontMatterModel) -> Seq<
    FrontMatterModel,
> {
    let values = match own.values {
        Some(maps) => merged(maps),
        None => Map::empty(),
    };
    let listed = values.contains_key("navbar_include"@) && says_true(values["navbar_include"@]);
    navbar_others(others, 0) + (if listed {
        seq![own]
    } else {
        Seq::empty()
    })
}

/// The text without a `/` at its start.
pub open spec fn without_leading_slash(s: Seq<char>) -> Seq<char> {
    if s.len() > 0 && s[0] == '/' {
        s.skip(1)
    } else {
        s
    }
}

/// The address of the page of a document: its path, a `/`, its title, and
/// `.html`.
pub open spec fn page_url(path: Seq<char>, title: Seq<char>) -> Seq<char> {
    path + seq!['/'] + title + ".html"@
}

/// What the menu shows of the document `fm`, for a menu on the page at `own_path`:
/// the title is the first of the values `navbar_title` and `title` and the
/// title of the document; the order is the value `navbar_order`, or 0 where
/// that is no integer.
pub open spec fn page_of(fm: FrontMatterModel, own_path: Seq<char>) -> PageModel {
    PageModel {
        path: page_url(without_leading_slash(or_empty(fm.path)), or_empty(fm.title)),
        title: match value_of(fm, "navbar_title"@) {
            Some(t) => t,
            None => match value_of(fm, "title"@) {
                Some(t) => t,
                None => or_empty(fm.title),
            },
        },
        order: match int_of(or_empty(value_of(fm, "navbar_order"@))) {
            Some(v) => v,
            None => 0,
        },
        is_current: or_empty(fm.path) == own_path,
    }
}

/// The pages with `page` put in after the last page whose order is not
/// larger.
pub open spec fn insert_page(sorted: Seq<PageModel>, page: PageModel) -> Seq<PageModel>
    decreases sorted.len(),
{
    if sorted.len() == 0 {
        seq![page]
    } else if sorted.last().order <= page.order {
        sorted.push(page)
    } else {
        insert_page(sorted.drop_last(), page).push(sorted.last())
    }
}

/// The pages in ascending order; pages of the same order keep their places.
pub open spec fn sort_pages(pages: Seq<PageModel>) -> Seq<PageModel>
    decreases pages.len(),
{
    if pages.len() == 0 {
        Seq::empty()
    } else {
        insert_page(sort_pages(pages.drop_last()), pages.last())
    }
}

/// The pages in ascending order.
pub open spec fn ordered(pages: Seq<PageModel>) -> bool {
    forall|i: int, j: int| 0 <= i <= j < pages.len() ==> pages[i].order <= pages[j].order
}

/// The pages of the menu of the document `own`, in the order of the menu.
pub open spec fn navbar_infos(others: Seq<Option<FrontMatterModel>>, own: FrontMatterModel) -> Seq<
    PageModel,
> {
    let pages = navbar_pages(others, own);
    sort_pages(Seq::new(pages.len(), |i: int| page_of(pages[i], or_empty(own.path))))
}

/// The text of a truth value.
pub open spec fn bool_text(b: bool) -> Seq<char> {
    if b {
        "true"@
    } else {
        "false"@
    }
}

/// The values of the custom element of one entry of a menu: an entry is
/// enabled where it leads to another page.
pub open spec fn navbar_item_values(page: PageModel) -> Map<Seq<char>, Seq<char>> {
    Map::empty().insert("title"@, page.title).insert("enabled"@, bool_text(!page.is_current)).insert(
        "url"@,
        page.path,
    )
}

/// The documents of `others` from `from` on whose path is the directory
/// `dir`, with or without a `/` at its start or end.
pub open spec fn blog_posts(others: Seq<Option<FrontMatterModel>>, dir: Seq<char>, from: int) -> Seq<
    FrontMatterModel,
>
    decreases others.len() - from,
{
    if from < 0 || from >= others.len() {
        Seq::empty()
    } else {
        (match others[from] {
            Some(fm) => if in_directory(or_empty(fm.path), dir) {
                seq![fm]
            } else {
                Seq::empty()
            },
            None => Seq::empty(),
        }) + blog_posts(others, dir, from + 1)
    }
}

/// The path names the directory `dir`.
pub open spec fn in_directory(path: Seq<char>, dir: Seq<char>) -> bool {
    path == dir || path + seq!['/'] == dir || seq!['/'] + path == dir
}

/// The values of the custom element of one post of a listing.
pub open spec fn blog_item_values(fm: FrontMatterModel) -> Map<Seq<char>, Seq<char>> {
    Map::empty().insert("title"@, or_empty(value_of(fm, "title"@))).insert(
        "date"@,
        or_empty(value_of(fm, "date"@)),
    ).insert("url"@, page_url(or_empty(fm.path), or_empty(fm.title)))
}

/// The custom elements that a plugin makes, one for each list of values,
/// under one wrapper. The ids are the next ids of the document: first those of
/// the elements, then that of the wrapper.
pub open spec fn wrapped(
    st: Doc,
    wrapper: Seq<char>,
    item: Seq<char>,
    values: Seq<Map<Seq<char>, Seq<char>>>,
) -> Result<(Node, Doc), Fault> {
    if st.issued + values.len() + 1 > u32::MAX {
        Err(Fault::MathError)
    } else {
        Ok(
            (
                custom_node(
                    wrapper,
                    Map::empty(),
                    Seq::new(
                        values.len(),
                        |k: int| custom_node(item, values[k], Seq::empty(), id_at(st.seed, st.issued + k)),
                    ),
                    id_at(st.seed, st.issued + values.len()),
                ),
                Doc { issued: st.issued + values.len() + 1, ..st },
            ),
        )
    }
}

/// What the navigation menu adds below the custom element `id`.
pub open spec fn run_navbar(
    st: Doc,
    own: FrontMatterModel,
    others: Seq<Option<FrontMatterModel>>,
    id: u32,
) -> Result<Doc, Fault> {
    let infos = navbar_infos(others, own);
    match wrapped(
        st,
        navbar_wrapper_name(),
        navbar_item_name(),
        Seq::new(infos.len(), |k: int| navbar_item_values(infos[k])),
    ) {
        Err(e) => Err(e),
        Ok((wrapper, st1)) => Ok(Doc { ast: add_child(st1.ast, id, wrapper), ..st1 }),
    }
}

/// What the listing of posts adds below the custom element `id` whose
/// values are `data`.
pub open spec fn run_blog_list(
    st: Doc,
    others: Seq<Option<FrontMatterModel>>,
    id: u32,
    data: Map<Seq<char>, Seq<char>>,
) -> Result<Doc, Fault> {
    let dir = if data.contains_key("dir"@) {
        data["dir"@]
    } else {
        Seq::empty()
    };
    let posts = blog_posts(others, dir, 0);
    match wrapped(
        st,
        blog_wrapper_name(),
        blog_item_name(),
        Seq::new(posts.len(), |k: int| blog_item_values(posts[k])),
    ) {
        Err(e) => Err(e),
        Ok((wrapper, st1)) => Ok(Doc { ast: add_child(st1.ast, id, wrapper), ..st1 }),
    }
}

/// A custom element that is to be expanded, as it stood when the round began.
pub struct Job {
    pub id: u32,
    pub name: Seq<char>,
    pub data: Map<Seq<char>, Seq<char>>,
}

/// Expands one custom element: its plugin runs, and then its template is
/// set.
pub open spec fn run_job(
    st: Doc,
    own: FrontMatterModel,
    others: Seq<Option<FrontMatterModel>>,
    job: Job,
) -> Result<Doc, Fault> {
    let ran = match plugin_of(job.name) {
        Some(PluginTag::Navbar) => run_navbar(st, own, others, job.id),
        Some(PluginTag::BlogList) => run_blog_list(st, others, job.id, job.data),
        None => Ok(st),
    };
    match ran {
        Err(e) => Err(e),
        Ok(st1) => match template_of(job.name) {
            Some(t) => Ok(Doc { ast: set_template(st1.ast, job.id, t), ..st1 }),
            None => Ok(st1),
        },
    }
}

/// Expands the custom elements `jobs` from `from` on, one after the other.
pub open spec fn run_jobs(
    st: Doc,
    own: FrontMatterModel,
    others: Seq<Option<FrontMatterModel>>,
    jobs: Seq<Job>,
    from: int,
) -> Result<Doc, Fault>
    decreases jobs.len() - from,
{
    if from < 0 || from >= jobs.len() {
        Ok(st)
    } else {
        match run_job(st, own, others, jobs[from]) {
            Err(e) => Err(e),
            Ok(st1) => run_jobs(st1, own, others, jobs, from + 1),
        }
    }
}

/// The custom elements of the tree with the ids `ids`, in that order. An id
/// that is no custom element of the tree is passed over.
pub open spec fn jobs_of(ast: Seq<Node>, ids: Seq<u32>) -> Seq<Job>
    decreases ids.len(),
{
    if ids.len() == 0 {
        Seq::empty()
    } else {
        let before = jobs_of(ast, ids.drop_last());
        match find_in(ast, ids.last()) {
            Some(n) => match n.kind {
                KindModel::CustomElement(c) => before.push(
                    Job { id: n.id, name: c.name, data: c.values },
                ),
                _ => before,
            },
            None => before,
        }
    }
}

/// One round of the expansion: the custom elements with the ids `ids` are
/// expanded, each as it stood when the round began.
pub open spec fn run_round(
    st: Doc,
    own: FrontMatterModel,
    others: Seq<Option<FrontMatterModel>>,
    ids: Seq<u32>,
) -> Result<Doc, Fault> {
    run_jobs(st, own, others, jobs_of(st.ast, ids), 0)
}

/// The largest number of rounds of one expansion.
pub open spec fn max_rounds() -> nat {
    5
}

/// Expands the custom elements that are not among `seen`, and then those
/// that this has brought into the tree, for at most `rounds` rounds. The
/// second component counts the rounds in which something was expanded.
pub open spec fn expand(
    st: Doc,
    own: FrontMatterModel,
    others: Seq<Option<FrontMatterModel>>,
    seen: Seq<u32>,
    rounds: nat,
) -> Result<(Doc, nat), Fault>
    decreases rounds,
{
    let current = custom_ids(st.ast);
    let fresh = unseen(current, seen);
    if rounds == 0 || fresh.len() == 0 {
        Ok((st, 0))
    } else {
        match run_round(st, own, others, fresh) {
            Err(e) => Err(e),
            Ok(st1) => match expand(st1, own, others, current, (rounds - 1) as nat) {
                Err(e) => Err(e),
                Ok((st2, n)) => Ok((st2, n + 1)),
            },
        }
    }
}

/// The document with its custom elements expanded. A document without
/// custom elements stays as it is.
pub open spec fn resolve(
    st: Doc,
    own: FrontMatterModel,
    others: Seq<Option<FrontMatterModel>>,
) -> Result<Doc, Fault> {
    if !st.has_custom {
        Ok(st)
    } else {
        match expand(st, own, others, Seq::empty(), max_rounds()) {
            Err(e) => Err(e),
            Ok((st1, _)) => Ok(st1),
        }
    }
}

} // verus!
