//! The metadata of a document: title, path, kind, and free values.

use vstd::prelude::*;
use crate::custom::{copy_opt, opt_text};
use crate::strmap::StrMap;
use crate::text::string_of;

verus! {

/// The metadata of a document as a mathematical value.
pub struct FrontMatterModel {
    pub title: Option<Seq<char>>,
    pub path: Option<Seq<char>>,
    pub kind: Option<Seq<char>>,
    pub values: Option<Seq<Map<Seq<char>, Seq<char>>>>,
}

/// The metadata of a document. The values are a list of small maps, most
/// often of one entry each.
#[derive(Debug, PartialEq)]
pub struct FrontMatter {
    pub title: Option<String>,
    pub path: Option<String>,
    pub kind: Option<String>,
    pub values: Option<Vec<StrMap>>,
}

/// A list of maps as plain values.
pub open spec fn map_values(maps: Seq<StrMap>) -> Seq<Map<Seq<char>, Seq<char>>> {
    Seq::new(maps.len(), |i: int| maps[i]@)
}

/// The bindings of a list of maps, each in its order.
pub open spec fn map_bindings(maps: Seq<StrMap>) -> Seq<Seq<(Seq<char>, Seq<char>)>> {
    Seq::new(maps.len(), |i: int| maps[i].bindings())
}

/// The bindings of all maps as one list: the bindings of each map are bound
/// one after the other, the maps in their order.
pub open spec fn merged_bindings(maps: Seq<Seq<(Seq<char>, Seq<char>)>>) -> Seq<
    (Seq<char>, Seq<char>),
>
    decreases maps.len(),
{
    if maps.len() == 0 {
        Seq::empty()
    } else {
        crate::strmap::bind_all(merged_bindings(maps.drop_last()), maps.last())
    }
}

/// The kind of a document whose front matter names none.
pub open spec fn default_kind() -> Seq<char> {
    "default"@
}

/// The value of `key` in the first of the maps from `from` on that binds it.
pub open spec fn lookup(maps: Seq<Map<Seq<char>, Seq<char>>>, key: Seq<char>, from: int) -> Option<
    Seq<char>,
>
    decreases maps.len() - from,
{
    if from < 0 || from >= maps.len() {
        None
    } else if maps[from].contains_key(key) {
        Some(maps[from][key])
    } else {
        lookup(maps, key, from + 1)
    }
}

/// All maps as one: where two bind a key, the later one decides.
pub open spec fn merged(maps: Seq<Map<Seq<char>, Seq<char>>>) -> Map<Seq<char>, Seq<char>>
    decreases maps.len(),
{
    if maps.len() == 0 {
        Map::empty()
    } else {
        merged(maps.drop_last()).union_prefer_right(maps.last())
    }
}

/// The metadata `old` with every field that `new` defines taken from `new`.
pub open spec fn merge(old: FrontMatterModel, new: FrontMatterModel) -> FrontMatterModel {
    FrontMatterModel {
        title: if new.title is Some {
            new.title
        } else {
            old.title
        },
        path: if new.path is Some {
            new.path
        } else {
            old.path
        },
        kind: if new.kind is Some {
            new.kind
        } else {
            old.kind
        },
        values: if new.values is Some {
            new.values
        } else {
            old.values
        },
    }
}

/// The metadata with the default kind where it names none.
pub open spec fn with_defaults(m: FrontMatterModel) -> FrontMatterModel {
    FrontMatterModel {
        kind: if m.kind is Some {
            m.kind
        } else {
            Some(default_kind())
        },
        ..m
    }
}

/// The metadata `old` after the block `new` was merged into it.
pub open spec fn updated(old: FrontMatterModel, new: FrontMatterModel) -> FrontMatterModel {
    with_defaults(merge(old, new))
}

/// Merging the same block a second time changes nothing.
pub proof fn lemma_update_idempotent(old: FrontMatterModel, new: FrontMatterModel)
    ensures
        updated(updated(old, new), new) == updated(old, new),
{
}

/// Filling in the defaults a second time changes nothing.
pub proof fn lemma_defaults_idempotent(m: FrontMatterModel)
    ensures
        with_defaults(with_defaults(m)) == with_defaults(m),
{
}

/// The last component of a path, by `Path::file_name`. Nothing is claimed of
/// the result: what counts as a separator depends on the platform.
#[verifier::external_body]
fn file_name_of(path: &str) -> Option<String> {
    match std::path::Path::new(path).file_name() {
        Some(name) => Some(name.to_string_lossy().to_string()),
        None => None,
    }
}

impl FrontMatter {
    /// The metadata as a mathematical value.
    pub open spec fn model(&self) -> FrontMatterModel {
        FrontMatterModel {
            title: opt_text(self.title),
            path: opt_text(self.path),
            kind: opt_text(self.kind),
            values: match self.values {
                Some(v) => Some(map_values(v@)),
                None => None,
            },
        }
    }

    /// The metadata of a document at `path` with the title `title`, of the
    /// default kind and without values.
    pub fn from_parts(title: Option<String>, path: &str) -> (f: Self)
        ensures
            f.model() == (FrontMatterModel {
                title: opt_text(title),
                path: Some(path@),
                kind: Some(default_kind()),
                values: None,
            }),
    {
        FrontMatter {
            title,
            path: Some(string_of(path)),
            kind: Some(string_of("default")),
            values: None,
        }
    }

    /// The metadata of a document at `path` before its front matter is read:
    /// the title is the name of the file, the kind is the default kind.
    pub fn new(path: &str) -> (f: Self)
        ensures
            f.model() == (FrontMatterModel {
                title: f.model().title,
                path: Some(path@),
                kind: Some(default_kind()),
                values: None,
            }),
    {
        FrontMatter::from_parts(file_name_of(path), path)
    }

    /// The value of `key` in the first of the maps that binds it.
    pub fn get_value(&self, key: &str) -> (r: Option<&String>)
        ensures
            match self.model().values {
                Some(maps) => opt_ref_text(r) == lookup(maps, key@, 0),
                None => r is None,
            },
    {
        match &self.values {
            None => None,
            Some(maps) => {
                let ghost all = map_values(maps@);
                let mut i: usize = 0;
                while i < maps.len()
                    invariant
                        i <= maps.len(),
                        all == map_values(maps@),
                        self.model().values == Some(all),
                        lookup(all, key@, i as int) == lookup(all, key@, 0),
                    decreases maps.len() - i,
                {
                    proof {
                        assert(all[i as int] == maps[i as int]@);
                    }
                    if let Some(v) = maps[i].get(key) {
                        return Some(v);
                    }
                    i += 1;
                }
                None
            },
        }
    }

    /// All values as one map: where two of the maps bind a key, the later one
    /// decides.
    pub fn get_values(&self) -> (r: Option<StrMap>)
        ensures
            match self.model().values {
                Some(maps) => r matches Some(m) && m@ == merged(maps) && m.wf(),
                None => r is None,
            },
            match self.values {
                Some(maps) => r matches Some(m) && m.bindings() == merged_bindings(
                    map_bindings(maps@),
                ),
                None => r is None,
            },
    {
        match &self.values {
            None => None,
            Some(maps) => {
                let ghost all = map_values(maps@);
                let ghost lists = map_bindings(maps@);
                let mut out = StrMap::new();
                let mut i: usize = 0;
                proof {
                    assert(all.take(0) =~= Seq::empty());
                    assert(lists.take(0) =~= Seq::empty());
                }
                while i < maps.len()
                    invariant
                        i <= maps.len(),
                        all == map_values(maps@),
                        lists == map_bindings(maps@),
                        out.wf(),
                        out@ == merged(all.take(i as int)),
                        out.bindings() == merged_bindings(lists.take(i as int)),
                    decreases maps.len() - i,
                {
                    let ghost base = out@;
                    let ghost base_list = out.bindings();
                    let m = &maps[i];
                    let mut j: usize = 0;
                    proof {
                        assert(m.bindings().take(0) =~= Seq::empty());
                        assert(base.union_prefer_right(Map::empty()) =~= base);
                        m.lemma_view();
                    }
                    while j < m.len()
                        invariant
                            j <= m.bindings().len(),
                            out.wf(),
                            out@ == base.union_prefer_right(
                                crate::strmap::map_of(m.bindings().take(j as int)),
                            ),
                            out.bindings() == crate::strmap::bind_all(
                                base_list,
                                m.bindings().take(j as int),
                            ),
                        decreases m.bindings().len() - j,
                    {
                        proof {
                            let b = m.bindings();
                            assert(b.take(j + 1).drop_last() =~= b.take(j as int));
                            assert(base.union_prefer_right(
                                crate::strmap::map_of(b.take(j as int)),
                            ).insert(b[j as int].0, b[j as int].1) =~= base.union_prefer_right(
                                crate::strmap::map_of(b.take(j + 1)),
                            ));
                        }
                        out.insert(m.key_at(j).as_str(), m.value_at(j).clone());
                        j += 1;
                    }
                    proof {
                        assert(m.bindings().take(m.bindings().len() as int) =~= m.bindings());
                        assert(all.take(i + 1).drop_last() =~= all.take(i as int));
                        assert(lists.take(i + 1).drop_last() =~= lists.take(i as int));
                        assert(lists.take(i + 1).last() == m.bindings());
                    }
                    i += 1;
                }
                proof {
                    assert(all.take(all.len() as int) =~= all);
                    assert(lists.take(lists.len() as int) =~= lists);
                }
                Some(out)
            },
        }
    }

    /// The kind of the document.
    pub fn get_kind(&self) -> (r: Option<&String>)
        ensures
            opt_ref_text(r) == self.model().kind,
    {
        self.kind.as_ref()
    }

    /// The path of the document.
    pub fn get_path(&self) -> (r: Option<&String>)
        ensures
            opt_ref_text(r) == self.model().path,
    {
        self.path.as_ref()
    }

    /// The title of the document.
    pub fn get_title(&self) -> (r: Option<&String>)
        ensures
            opt_ref_text(r) == self.model().title,
    {
        self.title.as_ref()
    }

    /// Sets the default kind where the metadata names no kind.
    pub fn fill_defaults(&mut self)
        ensures
            final(self).model() == with_defaults(old(self).model()),
    {
        if self.kind.is_none() {
            self.kind = Some(string_of("default"));
        }
    }

    /// Merges the block `new` into the metadata: every field that `new`
    /// defines replaces the old one. The defaults are filled in after that.
    pub fn update(&mut self, new: FrontMatter)
        ensures
            final(self).model() == updated(old(self).model(), new.model()),
    {
        let FrontMatter { title, path, kind, values } = new;
        if path.is_some() {
            self.path = path;
        }
        if title.is_some() {
            self.title = title;
        }
        if kind.is_some() {
            self.kind = kind;
        }
        if values.is_some() {
            self.values = values;
        }
        self.fill_defaults();
    }
}

/// An optional reference to a string as a plain value.
pub open spec fn opt_ref_text(o: Option<&String>) -> Option<Seq<char>> {
    match o {
        Some(s) => Some(s@),
        None => None,
    }
}

impl Clone for FrontMatter {
    fn clone(&self) -> (f: Self)
        ensures
            f.model() == self.model(),
    {
        let values = match &self.values {
            None => None,
            Some(maps) => {
                let mut out: Vec<StrMap> = Vec::new();
                let mut i: usize = 0;
                while i < maps.len()
                    invariant
                        i <= maps.len(),
                        out.len() == i,
                        forall|j: int| 0 <= j < i ==> (#[trigger] out[j])@ == maps[j]@,
                    decreases maps.len() - i,
                {
                    out.push(maps[i].copy());
                    i += 1;
                }
                proof {
                    assert(map_values(out@) =~= map_values(maps@));
                }
                Some(out)
            },
        };
        FrontMatter {
            title: copy_opt(&self.title),
            path: copy_opt(&self.path),
            kind: copy_opt(&self.kind),
            values,
        }
    }
}

/// What is known of a document besides its tree.
#[derive(Debug)]
pub struct Metadata {
    pub absolute_path: String,
    pub frontmatter: FrontMatter,
}

impl Metadata {
    /// The metadata of a document at `path` before its front matter is read.
    pub fn new(path: &str) -> (m: Self)
        ensures
            m.absolute_path@ == path@,
            m.frontmatter.model() == (FrontMatterModel {
                title: m.frontmatter.model().title,
                path: Some(path@),
                kind: Some(default_kind()),
                values: None,
            }),
    {
        Metadata { absolute_path: string_of(path), frontmatter: FrontMatter::new(path) }
    }
}

impl Clone for Metadata {
    fn clone(&self) -> (m: Self)
        ensures
            m.absolute_path@ == self.absolute_path@,
            m.frontmatter.model() == self.frontmatter.model(),
    {
        Metadata {
            absolute_path: self.absolute_path.clone(),
            frontmatter: self.frontmatter.clone(),
        }
    }
}

} // verus!
