//! The plugins that a custom element can name, and their templates.

use vstd::prelude::*;
use crate::custom::CustomElm;
use crate::frontmatter::{merged, FrontMatter, FrontMatterModel};
use crate::lex_model::is_digit;
use crate::parse_model::{id_at, Doc, Fault};
use crate::parser::{agrees, ParseError, Parser};
use crate::resolve::Custom;
use crate::resolve_model::{
    add_child, all_digits, blog_item_values, blog_posts, custom_node, digits_value, insert_page,
    int_of, navbar_infos, navbar_item_values, navbar_others, navbar_pages, or_empty, page_of,
    page_url, plugin_of, run_blog_list, run_navbar, says_true, sort_pages, template_of, wrapped,
    PageModel, PluginTag,
};
use crate::strmap::StrMap;
use crate::text::{
    chars_of, equal_ignoring_ascii_case, push_char, push_chars, push_range, push_text, string_of,
    text_equal,
};
use crate::tree::{nodes, Element, Kind};

verus! {

/// The text that a custom element is rendered with.
#[derive(Debug)]
pub struct Template {
    pub content: String,
}

impl Template {
    /// A template with the text `content`.
    pub fn new(content: String) -> (t: Self)
        ensures
            t.content == content,
    {
        Template { content }
    }
}

/// The metadata of the documents of a site, as plain values.
pub open spec fn site(others: Seq<Option<Parser>>) -> Seq<Option<FrontMatterModel>> {
    Seq::new(
        others.len(),
        |i: int|
            match others[i] {
                Some(p) => Some(p.metadata.frontmatter.model()),
                None => None,
            },
    )
}

/// A list of metadata as plain values.
pub open spec fn models(list: Seq<FrontMatter>) -> Seq<FrontMatterModel> {
    Seq::new(list.len(), |i: int| list[i].model())
}

/// A list of maps as plain values.
pub open spec fn maps(list: Seq<StrMap>) -> Seq<Map<Seq<char>, Seq<char>>> {
    Seq::new(list.len(), |i: int| list[i]@)
}

/// A behaviour that expands a custom element.
pub trait Plugin {
    /// Takes from the document and from the custom element what the plugin
    /// needs when it runs.
    fn pre_load(&mut self, target: &Parser, custom: &Custom);

    /// Adds what the plugin makes below its custom element.
    fn run(&mut self, target: &mut Parser, others: &Vec<Option<Parser>>) -> Result<
        (),
        ParseError,
    >;
}

/// The template that the name of a custom element stands for.
pub fn match_template(name: &str) -> (r: Option<Template>)
    ensures
        match r {
            Some(t) => template_of(name@) == Some(t.content@),
            None => template_of(name@) is None,
        },
{
    if text_equal(name, "footer") {
        Some(Template::new(string_of("<h1>Test template</h1>")))
    } else if text_equal(name, "builtin_blogitem") {
        Some(
            Template::new(
                string_of(
                    "<li class=\"blog-item\"><a href=\"{url}\">{title}</a> <span class=\"date\">{date}</span></li>\n",
                ),
            ),
        )
    } else if text_equal(name, "builtin_blog_wrapper") {
        Some(Template::new(string_of("<ul class=\"blog-list\">\n{elements}</ul>\n")))
    } else if text_equal(name, "bismuth_navbar_item") {
        Some(
            Template::new(
                string_of(
                    "<li class=\"navbar-item\" data-enabled=\"{enabled}\"><a href=\"/{url}\">{title}</a></li>\n",
                ),
            ),
        )
    } else if text_equal(name, "bismuth_navbar_wrapper") {
        Some(Template::new(string_of("<nav class=\"navbar\"><ul>\n{elements}</ul></nav>\n")))
    } else {
        None
    }
}

/// The plugins, each with what it has loaded.
#[derive(Debug)]
pub enum PluginKind {
    Navbar(Navbar),
    BlogList(BlogList),
}

impl PluginKind {
    /// Which plugin it is.
    pub open spec fn tag(&self) -> PluginTag {
        match self {
            PluginKind::Navbar(_) => PluginTag::Navbar,
            PluginKind::BlogList(_) => PluginTag::BlogList,
        }
    }
}

/// The plugin that the name of a custom element stands for.
pub fn match_plugin(name: &str) -> (r: Option<PluginKind>)
    ensures
        match r {
            Some(p) => plugin_of(name@) == Some(p.tag()),
            None => plugin_of(name@) is None,
        },
{
    if text_equal(name, "navbar") {
        Some(PluginKind::Navbar(Navbar { values: StrMap::new(), path: String::new(), id: 0 }))
    } else if text_equal(name, "blog list") || text_equal(name, "blogs") || text_equal(
        name,
        "bloglist",
    ) {
        Some(PluginKind::BlogList(BlogList { values: StrMap::new(), dir: String::new(), id: 0 }))
    } else {
        None
    }
}

/// An optional text as a plain value.
pub open spec fn opt_str(o: Option<&str>) -> Option<Seq<char>> {
    match o {
        Some(s) => Some(s@),
        None => None,
    }
}

/// The value of an optional text, or the empty text.
pub fn text_or_empty(o: Option<&String>) -> (s: String)
    ensures
        s@ == or_empty(crate::frontmatter::opt_ref_text(o)),
{
    match o {
        Some(s) => s.clone(),
        None => String::new(),
    }
}

/// Whether the text says `true`, in any case of its letters.
pub fn is_true(v: &str) -> (r: bool)
    ensures
        r == says_true(v@),
{
    let a = chars_of(v);
    let b = chars_of("true");
    proof {
        reveal_strlit("true");
        assert(b@ =~= seq!['t', 'r', 'u', 'e']);
    }
    equal_ignoring_ascii_case(&a, &b)
}

/// The integer that a text stands for: digits after an optional sign, within
/// the range of 32 bits.
pub fn parse_int(s: &str) -> (r: Option<i32>)
    ensures
        match r {
            Some(v) => int_of(s@) == Some(v as int),
            None => int_of(s@) is None,
        },
{
    let chars = chars_of(s);
    let n: usize = chars.len();
    if n == 0 {
        return None;
    }
    let negative = chars[0] == '-';
    let start: usize = if chars[0] == '-' || chars[0] == '+' {
        1
    } else {
        0
    };
    if start == n {
        return None;
    }
    let ghost digits = chars@.skip(start as int);
    proof {
        if start == 0 {
            assert(digits =~= s@);
        } else {
            assert(digits =~= s@.skip(1));
        }
    }
    let mut acc: i64 = 0;
    let mut large = false;
    let mut i: usize = start;
    proof {
        assert(digits.take(0) =~= Seq::empty());
    }
    while i < n
        invariant
            start <= i <= n == chars.len(),
            digits == chars@.skip(start as int),
            digits.len() == n - start,
            s@.len() > 0,
            digits == (if s@[0] == '-' || s@[0] == '+' {
                s@.skip(1)
            } else {
                s@
            }),
            all_digits(digits.take(i - start)),
            0 <= acc <= 0x8000_0000,
            !large ==> acc == digits_value(digits.take(i - start)),
            large ==> digits_value(digits.take(i - start)) > 0x8000_0000,
        decreases n - i,
    {
        let c = chars[i];
        proof {
            assert(digits[i - start] == c);
            assert(digits.take(i - start + 1).drop_last() =~= digits.take(i - start));
        }
        if !(c >= '0' && c <= '9') {
            proof {
                assert(!is_digit(digits[i - start]));
                assert(!all_digits(digits));
            }
            return None;
        }
        proof {
            assert forall|j: int| 0 <= j < i - start + 1 implies is_digit(
                #[trigger] digits.take(i - start + 1)[j],
            ) by {
                if j < i - start {
                    assert(digits.take(i - start)[j] == digits[j]);
                }
            }
        }
        if !large {
            let d: i64 = (c as u8 - 48) as i64;
            let next: i64 = acc * 10 + d;
            if next > 0x8000_0000 {
                large = true;
            } else {
                acc = next;
            }
        }
        i += 1;
    }
    proof {
        assert(digits.take(n - start) =~= digits);
    }
    if large {
        return None;
    }
    if negative {
        Some((-acc) as i32)
    } else if acc > 0x7fff_ffff {
        None
    } else {
        Some(acc as i32)
    }
}

/// Makes one custom element of the name `item` for each of the maps, with
/// the next ids of the document. Fails, and makes nothing, where the document
/// has not that many ids left.
pub fn make_items(target: &mut Parser, item: &str, values: &Vec<StrMap>) -> (r: Result<
    Vec<Element>,
    ParseError,
>)
    ensures
        final(target).same_source(old(target)),
        match r {
            Ok(v) => old(target).ids_issued + values.len() <= u32::MAX && final(target).doc() == (
            Doc { issued: old(target).ids_issued + values.len(), ..old(target).doc() })
                && nodes(v@) == Seq::new(
                values.len() as nat,
                |k: int|
                    custom_node(
                        item@,
                        values[k]@,
                        Seq::empty(),
                        id_at(old(target).id_seed, old(target).ids_issued + k),
                    ),
            ),
            Err(e) => old(target).ids_issued + values.len() > u32::MAX && e.fault()
                == Fault::MathError && final(target).doc() == old(target).doc(),
        },
{
    let n: usize = values.len();
    let left: u32 = u32::MAX - target.ids_issued;
    if n > left as usize {
        return Err(ParseError::MathError);
    }
    let ghost seed = target.id_seed;
    let ghost first = target.ids_issued as int;
    let mut out: Vec<Element> = Vec::new();
    let mut k: usize = 0;
    while k < n
        invariant
            k <= n == values.len(),
            first + n <= u32::MAX,
            target.same_source(old(target)),
            seed == old(target).id_seed,
            first == old(target).ids_issued,
            target.doc() == (Doc { issued: first + k, ..old(target).doc() }),
            out.len() == k,
            forall|j: int|
                0 <= j < k ==> (#[trigger] out[j]).model() == custom_node(
                    item@,
                    values[j]@,
                    Seq::empty(),
                    id_at(seed, first + j),
                ),
        decreases n - k,
    {
        let sum: u64 = target.id_seed as u64 + target.ids_issued as u64;
        let id: u32 = (sum % 0x1_0000_0000u64) as u32;
        target.ids_issued = target.ids_issued + 1;
        let c = CustomElm {
            name: string_of(item),
            values: values[k].copy(),
            body: None,
            template: None,
        };
        let e = Element::with_id(Kind::CustomElement(c), id);
        out.push(e);
        k += 1;
    }
    proof {
        assert(nodes(out@) =~= Seq::new(
            values.len() as nat,
            |j: int| custom_node(item@, values[j]@, Seq::empty(), id_at(seed, first + j)),
        ));
    }
    Ok(out)
}

/// Puts the custom elements that a plugin has made under one wrapper of the
/// name `wrapper`, and the wrapper below the first element with the id `id`.
pub fn attach(
    target: &mut Parser,
    id: u32,
    wrapper: &str,
    item: &str,
    values: &Vec<StrMap>,
) -> (r: Result<(), ParseError>)
    ensures
        final(target).same_source(old(target)),
        match wrapped(old(target).doc(), wrapper@, item@, maps(values@)) {
            Ok((w, st)) => r is Ok && final(target).doc() == (Doc {
                ast: add_child(st.ast, id, w),
                ..st
            }),
            Err(f) => r matches Err(e) && e.fault() == f,
        },
{
    let items = match make_items(target, item, values) {
        Ok(v) => v,
        Err(e) => {
            return Err(e);
        },
    };
    if target.ids_issued == u32::MAX {
        return Err(ParseError::MathError);
    }
    let sum: u64 = target.id_seed as u64 + target.ids_issued as u64;
    let wid: u32 = (sum % 0x1_0000_0000u64) as u32;
    target.ids_issued = target.ids_issued + 1;
    let c = CustomElm { name: string_of(wrapper), values: StrMap::new(), body: None, template: None };
    let w = Element {
        kind: Kind::CustomElement(c),
        elements: items,
        text: None,
        attrs: StrMap::new(),
        id: wid,
    };
    proof {
        w.lemma_children();
        assert(maps(values@).len() == values.len());
        assert(nodes(items@) =~= Seq::new(
            maps(values@).len(),
            |k: int|
                custom_node(
                    item@,
                    maps(values@)[k],
                    Seq::empty(),
                    id_at(old(target).id_seed, old(target).ids_issued + k),
                ),
        ));
    }
    let ghost before = target.ast.model();
    match target.ast.find_mut(id) {
        Some(e) => {
            let ghost owner = e.model();
            e.elements.push(w);
            proof {
                e.lemma_children();
                assert(e.model().children =~= owner.children.push(w.model()));
            }
        },
        None => {},
    }
    Ok(())
}

/// What a navigation menu shows of one page.
#[derive(Debug)]
pub struct PageInfo {
    pub path: String,
    pub title: String,
    pub order: i32,
    pub is_current: bool,
}

impl PageInfo {
    /// The page as a mathematical value.
    pub open spec fn model(&self) -> PageModel {
        PageModel {
            path: self.path@,
            title: self.title@,
            order: self.order as int,
            is_current: self.is_current,
        }
    }
}

/// A list of pages as plain values.
pub open spec fn pages(list: Seq<PageInfo>) -> Seq<PageModel> {
    Seq::new(list.len(), |i: int| list[i].model())
}

/// The navigation menu: one entry for each document that asks to be in it.
#[derive(Debug)]
pub struct Navbar {
    pub values: StrMap,
    pub path: String,
    pub id: u32,
}

/// The address of the page of a document.
pub fn make_url(path: &str, title: &str) -> (s: String)
    ensures
        s@ == page_url(path@, title@),
{
    let mut s = string_of(path);
    push_char(&mut s, '/');
    push_text(&mut s, title);
    push_text(&mut s, ".html");
    proof {
        assert(s@ =~= page_url(path@, title@));
    }
    s
}

impl Navbar {
    /// The plugin holds what it loads from the document `own`.
    pub open spec fn loaded(&self, own: FrontMatterModel) -> bool {
        self.path@ == or_empty(own.path) && self.values@ == (match own.values {
            Some(maps) => merged(maps),
            None => Map::empty(),
        })
    }

    /// The documents of the menu: those of `pages` that ask to be in it, and
    /// then `page` itself where its values ask for it.
    pub fn get_pages(&self, page: &Parser, pages: &Vec<Option<Parser>>) -> (r: Vec<FrontMatter>)
        ensures
            models(r@) == navbar_others(site(pages@), 0) + (if self@.contains_key(
                "navbar_include"@,
            ) && says_true(self@["navbar_include"@]) {
                seq![page.metadata.frontmatter.model()]
            } else {
                Seq::empty()
            }),
    {
        let ghost all = site(pages@);
        let mut out: Vec<FrontMatter> = Vec::new();
        let mut i: usize = pages.len();
        proof {
            assert(models(out@) =~= navbar_others(all, i as int));
        }
        while i > 0
            invariant
                i <= pages.len(),
                all == site(pages@),
                models(out@).len() == out.len(),
                rev_models(out@) == navbar_others(all, i as int),
            decreases i,
        {
            i -= 1;
            if let Some(file) = &pages[i] {
                let v = text_or_empty(file.metadata.frontmatter.get_value("navbar_include"));
                if is_true(v.as_str()) {
                    let fm = file.metadata.frontmatter.clone();
                    proof {
                        assert(rev_models(out@.push(fm)) =~= seq![fm.model()] + rev_models(
                            out@,
                        ));
                    }
                    out.push(fm);
                }
            }
            proof {
                assert(Seq::<FrontMatterModel>::empty() + navbar_others(all, i + 1)
                    =~= navbar_others(all, i + 1));
            }
        }
        let mut ordered: Vec<FrontMatter> = Vec::new();
        let mut j: usize = out.len();
        while j > 0
            invariant
                j <= out.len(),
                ordered.len() == out.len() - j,
                forall|k: int|
                    0 <= k < ordered.len() ==> (#[trigger] ordered[k]).model() == out[out.len()
                        - 1 - k].model(),
            decreases j,
        {
            j -= 1;
            ordered.push(out[j].clone());
        }
        proof {
            assert(models(ordered@) =~= rev_models(out@));
        }
        let listed = match self.values.get("navbar_include") {
            Some(v) => is_true(v.as_str()),
            None => false,
        };
        if listed {
            let own = page.metadata.frontmatter.clone();
            proof {
                assert(models(ordered@.push(own)) =~= models(ordered@) + seq![own.model()]);
            }
            ordered.push(own);
        } else {
            proof {
                assert(models(ordered@) + Seq::<FrontMatterModel>::empty() =~= models(ordered@));
            }
        }
        ordered
    }

    /// What the menu shows of one document.
    pub fn page_info(&self, fm: &FrontMatter) -> (r: PageInfo)
        ensures
            r.model() == page_of(fm.model(), self.path@),
    {
        let own_path = text_or_empty(fm.get_path());
        let is_current = own_path == self.path;
        let order: i32 = match fm.get_value("navbar_order") {
            Some(v) => match parse_int(v.as_str()) {
                Some(n) => n,
                None => 0,
            },
            None => {
                let empty = String::new();
                match parse_int(empty.as_str()) {
                    Some(n) => n,
                    None => 0,
                }
            },
        };
        let title = match fm.get_value("navbar_title") {
            Some(t) => t.clone(),
            None => match fm.get_value("title") {
                Some(t) => t.clone(),
                None => text_or_empty(fm.get_title()),
            },
        };
        let chars = chars_of(own_path.as_str());
        let mut path = String::new();
        if chars.len() > 0 && chars[0] == '/' {
            push_range(&mut path, &chars, 1, chars.len());
            proof {
                assert(path@ =~= own_path@.skip(1));
            }
        } else {
            push_chars(&mut path, &chars);
            proof {
                assert(path@ =~= own_path@);
            }
        }
        let html_title = text_or_empty(fm.get_title());
        let url = make_url(path.as_str(), html_title.as_str());
        PageInfo { title, path: url, order, is_current }
    }

    /// What the menu shows of the documents, in ascending order; documents
    /// of the same order keep their places.
    pub fn get_info(&self, list: &Vec<FrontMatter>) -> (r: Vec<PageInfo>)
        ensures
            pages(r@) == sort_pages(
                Seq::new(list.len() as nat, |i: int| page_of(list[i].model(), self.path@)),
            ),
    {
        let ghost all = Seq::new(list.len() as nat, |i: int| page_of(list[i].model(), self.path@));
        let mut info: Vec<PageInfo> = Vec::new();
        let mut i: usize = 0;
        proof {
            assert(all.take(0) =~= Seq::empty());
            assert(pages(info@) =~= Seq::empty());
        }
        while i < list.len()
            invariant
                i <= list.len(),
                all == Seq::new(list.len() as nat, |i: int| page_of(list[i].model(), self.path@)),
                pages(info@) == sort_pages(all.take(i as int)),
            decreases list.len() - i,
        {
            let page = self.page_info(&list[i]);
            proof {
                assert(all.take(i + 1).drop_last() =~= all.take(i as int));
                assert(all.take(i + 1).last() == page.model());
            }
            insert_sorted(&mut info, page);
            i += 1;
        }
        proof {
            assert(all.take(list.len() as int) =~= all);
        }
        info
    }

    /// The values of the custom elements of the entries of the menu.
    pub fn gen_elements(&self, list: &Vec<PageInfo>) -> (r: Vec<StrMap>)
        ensures
            maps(r@) == Seq::new(list.len() as nat, |k: int| navbar_item_values(list[k].model())),
    {
        let mut out: Vec<StrMap> = Vec::new();
        let mut k: usize = 0;
        while k < list.len()
            invariant
                k <= list.len(),
                out.len() == k,
                forall|j: int|
                    0 <= j < k ==> (#[trigger] out[j])@ == navbar_item_values(list[j].model()),
            decreases list.len() - k,
        {
            let page = &list[k];
            let enabled = if page.is_current {
                string_of("false")
            } else {
                string_of("true")
            };
            let mut values = StrMap::new();
            values.insert("title", page.title.clone());
            values.insert("enabled", enabled);
            values.insert("url", page.path.clone());
            out.push(values);
            k += 1;
        }
        proof {
            assert(maps(out@) =~= Seq::new(
                list.len() as nat,
                |k: int| navbar_item_values(list[k].model()),
            ));
        }
        out
    }
}

impl View for Navbar {
    type V = Map<Seq<char>, Seq<char>>;

    open spec fn view(&self) -> Map<Seq<char>, Seq<char>> {
        self.values@
    }
}

/// A list of metadata as plain values, last first.
pub open spec fn rev_models(list: Seq<FrontMatter>) -> Seq<FrontMatterModel> {
    Seq::new(list.len(), |i: int| list[list.len() - 1 - i].model())
}

/// Puts `page` into the pages, which are in ascending order, after the last
/// page whose order is not larger.
pub fn insert_sorted(list: &mut Vec<PageInfo>, page: PageInfo)
    ensures
        pages(final(list)@) == insert_page(pages(old(list)@), page.model()),
{
    let ghost sorted = pages(list@);
    let mut j: usize = list.len();
    proof {
        assert(sorted.take(j as int) =~= sorted);
        assert(insert_page(sorted, page.model()) + sorted.skip(j as int) =~= insert_page(
            sorted,
            page.model(),
        ));
    }
    while j > 0 && list[j - 1].order > page.order
        invariant
            j <= list.len(),
            sorted == pages(list@),
            *list == *old(list),
            insert_page(sorted, page.model()) == insert_page(
                sorted.take(j as int),
                page.model(),
            ) + sorted.skip(j as int),
        decreases j,
    {
        proof {
            let head = sorted.take(j as int);
            assert(head.last() == sorted[j - 1]);
            assert(head.drop_last() =~= sorted.take(j - 1));
            assert(insert_page(sorted.take(j - 1), page.model()).push(sorted[j - 1])
                + sorted.skip(j as int) =~= insert_page(sorted.take(j - 1), page.model())
                + sorted.skip(j - 1));
        }
        j -= 1;
    }
    proof {
        let head = sorted.take(j as int);
        if j > 0 {
            assert(head.last() == sorted[j - 1]);
        }
        assert(insert_page(head, page.model()) =~= head.push(page.model()));
        assert(pages(list@.insert(j as int, page)) =~= head.push(page.model()) + sorted.skip(
            j as int,
        ));
    }
    list.insert(j, page);
}

impl Plugin for Navbar {
    fn pre_load(&mut self, target: &Parser, custom: &Custom)
        ensures
            final(self).loaded(target.metadata.frontmatter.model()),
            final(self).id == custom.id,
    {
        self.values = match target.metadata.frontmatter.get_values() {
            Some(v) => v,
            None => StrMap::new(),
        };
        self.path = text_or_empty(target.metadata.frontmatter.get_path());
        self.id = custom.id;
    }

    fn run(&mut self, target: &mut Parser, others: &Vec<Option<Parser>>) -> (r: Result<
        (),
        ParseError,
    >)
        ensures
            final(target).same_source(old(target)),
            *final(self) == *old(self),
            old(self).loaded(old(target).metadata.frontmatter.model()) ==> agrees(
                r,
                final(target).doc(),
                run_navbar(
                    old(target).doc(),
                    old(target).metadata.frontmatter.model(),
                    site(others@),
                    old(self).id,
                ),
            ),
    {
        let list = self.get_pages(target, others);
        let infos = self.get_info(&list);
        let values = self.gen_elements(&infos);
        proof {
            let own = target.metadata.frontmatter.model();
            if self.loaded(own) {
                assert(models(list@) == navbar_pages(site(others@), own));
                assert(Seq::new(
                    list.len() as nat,
                    |i: int| page_of(list[i].model(), self.path@),
                ) =~= Seq::new(
                    navbar_pages(site(others@), own).len(),
                    |i: int| page_of(navbar_pages(site(others@), own)[i], or_empty(own.path)),
                ));
                assert(pages(infos@) == navbar_infos(site(others@), own));
                assert(maps(values@) =~= Seq::new(
                    navbar_infos(site(others@), own).len(),
                    |k: int| navbar_item_values(navbar_infos(site(others@), own)[k]),
                ));
            }
        }
        attach(target, self.id, "bismuth_navbar_wrapper", "bismuth_navbar_item", &values)
    }
}

/// The listing of posts: one entry for each document of a directory.
#[derive(Debug)]
pub struct BlogList {
    pub values: StrMap,
    pub dir: String,
    pub id: u32,
}

impl BlogList {
    /// The plugin holds the directory that its values name.
    pub open spec fn loaded(&self) -> bool {
        self.dir@ == (if self.values@.contains_key("dir"@) {
            self.values@["dir"@]
        } else {
            Seq::empty()
        })
    }

    /// The documents of `files` whose path is the directory of the listing,
    /// with or without a `/` at its start or end.
    pub fn get_posts(&self, files: &Vec<Option<Parser>>) -> (r: Vec<FrontMatter>)
        ensures
            models(r@) == blog_posts(site(files@), self.dir@, 0),
    {
        let ghost all = site(files@);
        let mut out: Vec<FrontMatter> = Vec::new();
        let mut i: usize = files.len();
        while i > 0
            invariant
                i <= files.len(),
                all == site(files@),
                rev_models(out@) == blog_posts(all, self.dir@, i as int),
            decreases i,
        {
            i -= 1;
            if let Some(file) = &files[i] {
                let file_path = text_or_empty(file.metadata.frontmatter.get_path());
                let mut with_end = file_path.clone();
                push_char(&mut with_end, '/');
                let mut with_start = String::new();
                push_char(&mut with_start, '/');
                push_text(&mut with_start, file_path.as_str());
                proof {
                    assert(with_end@ =~= file_path@ + seq!['/']);
                    assert(with_start@ =~= seq!['/'] + file_path@);
                }
                if file_path == self.dir || with_end == self.dir || with_start == self.dir {
                    let fm = file.metadata.frontmatter.clone();
                    proof {
                        assert(rev_models(out@.push(fm)) =~= seq![fm.model()] + rev_models(
                            out@,
                        ));
                    }
                    out.push(fm);
                }
            }
            proof {
                assert(Seq::<FrontMatterModel>::empty() + blog_posts(all, self.dir@, i + 1)
                    =~= blog_posts(all, self.dir@, i + 1));
            }
        }
        let mut ordered: Vec<FrontMatter> = Vec::new();
        let mut j: usize = out.len();
        while j > 0
            invariant
                j <= out.len(),
                ordered.len() == out.len() - j,
                forall|k: int|
                    0 <= k < ordered.len() ==> (#[trigger] ordered[k]).model() == out[out.len()
                        - 1 - k].model(),
            decreases j,
        {
            j -= 1;
            ordered.push(out[j].clone());
        }
        proof {
            assert(models(ordered@) =~= rev_models(out@));
        }
        ordered
    }

    /// The values of the custom elements of the posts of the listing.
    pub fn gen_templates(&self, files: &Vec<FrontMatter>) -> (r: Vec<StrMap>)
        ensures
            maps(r@) == Seq::new(files.len() as nat, |k: int| blog_item_values(files[k].model())),
    {
        let mut out: Vec<StrMap> = Vec::new();
        let mut k: usize = 0;
        while k < files.len()
            invariant
                k <= files.len(),
                out.len() == k,
                forall|j: int|
                    0 <= j < k ==> (#[trigger] out[j])@ == blog_item_values(files[j].model()),
            decreases files.len() - k,
        {
            let frontmatter = &files[k];
            let html_title = text_or_empty(frontmatter.get_title());
            let path = text_or_empty(frontmatter.get_path());
            let title = text_or_empty(frontmatter.get_value("title"));
            let date = text_or_empty(frontmatter.get_value("date"));
            let full_path = make_url(path.as_str(), html_title.as_str());
            let mut values = StrMap::new();
            values.insert("title", title);
            values.insert("date", date);
            values.insert("url", full_path);
            out.push(values);
            k += 1;
        }
        proof {
            assert(maps(out@) =~= Seq::new(
                files.len() as nat,
                |k: int| blog_item_values(files[k].model()),
            ));
        }
        out
    }
}

impl Plugin for BlogList {
    fn pre_load(&mut self, target: &Parser, custom: &Custom)
        ensures
            final(self).loaded(),
            final(self).values@ == custom.data@,
            final(self).id == custom.id,
    {
        self.values = custom.data.copy();
        self.dir = text_or_empty(self.values.get("dir"));
        self.id = custom.id;
    }

    fn run(&mut self, target: &mut Parser, others: &Vec<Option<Parser>>) -> (r: Result<
        (),
        ParseError,
    >)
        ensures
            final(target).same_source(old(target)),
            *final(self) == *old(self),
            old(self).loaded() ==> agrees(
                r,
                final(target).doc(),
                run_blog_list(old(target).doc(), site(others@), old(self).id, old(self).values@),
            ),
    {
        let posts = self.get_posts(others);
        let values = self.gen_templates(&posts);
        proof {
            if self.loaded() {
                let found = blog_posts(site(others@), self.dir@, 0);
                assert(maps(values@) =~= Seq::new(
                    found.len(),
                    |k: int| blog_item_values(found[k]),
                ));
            }
        }
        attach(target, self.id, "builtin_blog_wrapper", "builtin_blogitem", &values)
    }
}

} // verus!
