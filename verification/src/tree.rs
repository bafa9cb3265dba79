//! The document tree: elements, each with a kind, children, an optional text,
//! attributes and an id by which it is found again.

use rand::Rng;
use vstd::prelude::*;
use crate::custom::{copy_opt, opt_text, CustomElm, CustomModel};
use crate::strmap::StrMap;
use crate::text::string_of;

verus! {

/// Why an element cannot give what was asked of it.
#[derive(Debug, PartialEq)]
pub enum ElementError {
    GetAttrError(String),
    GetTextError,
}

/// The kinds of element.
#[derive(Debug, PartialEq)]
pub enum Kind {
    Paragraph,
    Text,
    Link,
    FilePrev,
    Italic,
    Bold,
    BoldItalic,
    Blockquote,
    ListItem,
    OrderedListElement,
    InlineCode,
    BlockCode,
    InlineLaTeX,
    BlockLaTeX,
    CustomElement(CustomElm),
    Header,
    HorizontalRule,
    EndOfLine,
    LineBreak,
}

/// The kinds of element as mathematical values.
pub enum KindModel {
    Paragraph,
    Text,
    Link,
    FilePrev,
    Italic,
    Bold,
    BoldItalic,
    Blockquote,
    ListItem,
    OrderedListElement,
    InlineCode,
    BlockCode,
    InlineLaTeX,
    BlockLaTeX,
    CustomElement(CustomModel),
    Header,
    HorizontalRule,
    EndOfLine,
    LineBreak,
}

impl Kind {
    /// The kind as a mathematical value.
    pub open spec fn model(&self) -> KindModel {
        match self {
            Kind::Paragraph => KindModel::Paragraph,
            Kind::Text => KindModel::Text,
            Kind::Link => KindModel::Link,
            Kind::FilePrev => KindModel::FilePrev,
            Kind::Italic => KindModel::Italic,
            Kind::Bold => KindModel::Bold,
            Kind::BoldItalic => KindModel::BoldItalic,
            Kind::Blockquote => KindModel::Blockquote,
            Kind::ListItem => KindModel::ListItem,
            Kind::OrderedListElement => KindModel::OrderedListElement,
            Kind::InlineCode => KindModel::InlineCode,
            Kind::BlockCode => KindModel::BlockCode,
            Kind::InlineLaTeX => KindModel::InlineLaTeX,
            Kind::BlockLaTeX => KindModel::BlockLaTeX,
            Kind::CustomElement(c) => KindModel::CustomElement(c.model()),
            Kind::Header => KindModel::Header,
            Kind::HorizontalRule => KindModel::HorizontalRule,
            Kind::EndOfLine => KindModel::EndOfLine,
            Kind::LineBreak => KindModel::LineBreak,
        }
    }

    /// Whether the kind is a line end.
    pub fn is_end_of_line(&self) -> (r: bool)
        ensures
            r == (self.model() == KindModel::EndOfLine),
    {
        match self {
            Kind::EndOfLine => true,
            _ => false,
        }
    }

    /// Whether the kind is a custom element.
    pub fn is_custom(&self) -> (r: bool)
        ensures
            r == (self.model() is CustomElement),
    {
        match self {
            Kind::CustomElement(_) => true,
            _ => false,
        }
    }
}

impl Clone for Kind {
    fn clone(&self) -> (k: Self)
        ensures
            k.model() == self.model(),
    {
        match self {
            Kind::Paragraph => Kind::Paragraph,
            Kind::Text => Kind::Text,
            Kind::Link => Kind::Link,
            Kind::FilePrev => Kind::FilePrev,
            Kind::Italic => Kind::Italic,
            Kind::Bold => Kind::Bold,
            Kind::BoldItalic => Kind::BoldItalic,
            Kind::Blockquote => Kind::Blockquote,
            Kind::ListItem => Kind::ListItem,
            Kind::OrderedListElement => Kind::OrderedListElement,
            Kind::InlineCode => Kind::InlineCode,
            Kind::BlockCode => Kind::BlockCode,
            Kind::InlineLaTeX => Kind::InlineLaTeX,
            Kind::BlockLaTeX => Kind::BlockLaTeX,
            Kind::CustomElement(c) => Kind::CustomElement(c.clone()),
            Kind::Header => Kind::Header,
            Kind::HorizontalRule => Kind::HorizontalRule,
            Kind::EndOfLine => Kind::EndOfLine,
            Kind::LineBreak => Kind::LineBreak,
        }
    }
}

/// An element as a mathematical value.
pub struct Node {
    pub kind: KindModel,
    pub children: Seq<Node>,
    pub text: Option<Seq<char>>,
    pub attrs: Map<Seq<char>, Seq<char>>,
    pub id: u32,
}

/// A node of the document tree.
#[derive(Debug, PartialEq)]
pub struct Element {
    pub kind: Kind,
    pub elements: Vec<Element>,
    pub text: Option<String>,
    pub attrs: StrMap,
    pub id: u32,
}

/// The root of the document tree: the top-level elements in order.
#[derive(Debug, PartialEq)]
pub struct Ast {
    pub elements: Vec<Element>,
}

/// A node without children, text or attributes.
pub open spec fn leaf(kind: KindModel, id: u32) -> Node {
    Node { kind, children: Seq::empty(), text: None, attrs: Map::empty(), id }
}

/// The elements of a list as mathematical values.
pub open spec fn nodes(elements: Seq<Element>) -> Seq<Node> {
    Seq::new(elements.len(), |i: int| elements[i].model())
}

/// The first node with the id `id`, in a walk that visits a node before its
/// children and the children before the node's later siblings.
pub open spec fn find_in(ns: Seq<Node>, id: u32) -> Option<Node>
    decreases ns,
{
    if ns.len() == 0 {
        None
    } else {
        let first = ns[0];
        if first.id == id {
            Some(first)
        } else {
            match find_in(first.children, id) {
                Some(n) => Some(n),
                None => find_in(ns.drop_first(), id),
            }
        }
    }
}

/// The nodes with the first node that has the id `id` replaced by `new`.
pub open spec fn update_first(ns: Seq<Node>, id: u32, new: Node) -> Seq<Node>
    decreases ns,
{
    if ns.len() == 0 {
        ns
    } else {
        let first = ns[0];
        if first.id == id {
            seq![new] + ns.drop_first()
        } else if find_in(first.children, id) is Some {
            seq![Node { children: update_first(first.children, id, new), ..first }]
                + ns.drop_first()
        } else {
            seq![first] + update_first(ns.drop_first(), id, new)
        }
    }
}

/// How often the id `id` occurs in the nodes and below them.
pub open spec fn count_id(ns: Seq<Node>, id: u32) -> nat
    decreases ns,
{
    if ns.len() == 0 {
        0
    } else {
        let first = ns[0];
        (if first.id == id {
            1nat
        } else {
            0nat
        }) + count_id(first.children, id) + count_id(ns.drop_first(), id)
    }
}

/// No id occurs twice in the nodes and below them.
pub open spec fn unique_ids(ns: Seq<Node>) -> bool {
    forall|id: u32| count_id(ns, id) <= 1
}

/// The first index from `from` on of a node with the id `id`, or -1.
pub open spec fn position_of(ns: Seq<Node>, id: u32, from: int) -> int
    decreases ns.len() - from,
{
    if from < 0 || from >= ns.len() {
        -1
    } else if ns[from].id == id {
        from
    } else {
        position_of(ns, id, from + 1)
    }
}

/// The node `n` with `child` added as the last child of the node that the
/// path of ids leads to. An id of the path that no child has is passed over.
pub open spec fn push_at(n: Node, path: Seq<u32>, child: Node) -> Node
    decreases path.len(),
{
    if path.len() == 0 {
        Node { children: n.children.push(child), ..n }
    } else {
        let p = position_of(n.children, path[0], 0);
        if 0 <= p < n.children.len() {
            Node {
                children: n.children.update(p, push_at(n.children[p], path.drop_first(), child)),
                ..n
            }
        } else {
            push_at(n, path.drop_first(), child)
        }
    }
}

/// A random number, by `rand::thread_rng` and `Rng::gen`. Nothing is claimed
/// of the number.
#[verifier::external_body]
pub(crate) fn random_u32() -> u32 {
    let mut rng = rand::thread_rng();
    rng.gen::<u32>()
}

impl Element {
    /// The element as a mathematical value.
    pub open spec fn model(&self) -> Node
        decreases self,
    {
        Node {
            kind: self.kind.model(),
            children: Seq::new(
                self.elements.len() as nat,
                |i: int|
                    if 0 <= i < self.elements.len() {
                        self.elements[i].model()
                    } else {
                        arbitrary()
                    },
            ),
            text: opt_text(self.text),
            attrs: self.attrs@,
            id: self.id,
        }
    }

    /// The children of the model are the models of the children.
    pub proof fn lemma_children(&self)
        ensures
            self.model().children == nodes(self.elements@),
    {
        assert(self.model().children =~= nodes(self.elements@));
    }

    /// An element of the kind `kind` with the id `id`, and nothing else.
    pub fn with_id(kind: Kind, id: u32) -> (e: Self)
        ensures
            e.model() == leaf(kind.model(), id),
            e.kind == kind,
    {
        let e = Element { kind, elements: Vec::new(), text: None, attrs: StrMap::new(), id };
        proof {
            assert(e.model().children =~= Seq::empty());
        }
        e
    }

    /// An element of the kind `kind` with an id drawn at random.
    pub fn new(kind: Kind) -> (e: Self)
        ensures
            e.model() == leaf(kind.model(), e.id),
            e.kind == kind,
    {
        Element::with_id(kind, random_u32())
    }

    /// Adds `elm` as the last child and hands it back.
    pub fn append_node(&mut self, elm: Element) -> (r: &Element)
        ensures
            final(self).model() == (Node {
                children: old(self).model().children.push(elm.model()),
                ..old(self).model()
            }),
            *r == elm,
    {
        self.elements.push(elm);
        proof {
            assert(final(self).model().children =~= old(self).model().children.push(elm.model()));
        }
        let n: usize = self.elements.len();
        &self.elements[n - 1]
    }

    /// Binds the attribute `key` to `value`.
    pub fn add_attr(&mut self, key: &str, value: &str)
        ensures
            final(self).model() == (Node {
                attrs: old(self).model().attrs.insert(key@, value@),
                ..old(self).model()
            }),
    {
        self.attrs.insert(key, string_of(value));
        proof {
            assert(final(self).model().children =~= old(self).model().children);
        }
    }

    /// The value of the attribute `attr`.
    pub fn get_attr(&self, attr: &str) -> (r: Result<&String, ElementError>)
        ensures
            match r {
                Ok(v) => self.model().attrs.contains_key(attr@) && self.model().attrs[attr@]
                    == v@,
                Err(e) => !self.model().attrs.contains_key(attr@) && (e matches ElementError::GetAttrError(
                    name,
                ) && name@ == attr@),
            },
    {
        match self.attrs.get(attr) {
            Some(v) => Ok(v),
            None => Err(ElementError::GetAttrError(string_of(attr))),
        }
    }

    /// The value of the attribute `attr`, to be changed in place.
    pub fn get_attr_mut(&mut self, attr: &str) -> (r: Result<&mut String, ElementError>)
        ensures
            match r {
                Ok(v) => old(self).model().attrs.contains_key(attr@) && v@ == old(self).model().attrs[attr@] && final(self).model() == (Node {
                    attrs: old(self).model().attrs.insert(attr@, final(v)@),
                    ..old(self).model()
                }),
                Err(e) => !old(self).model().attrs.contains_key(attr@) && final(self).model()
                    == old(self).model() && (e matches ElementError::GetAttrError(name) && name@
                    == attr@),
            },
    {
        let ghost before = *old(self);
        let ghost after = *final(self);
        proof {
            after.lemma_children();
            before.lemma_children();
        }
        match self.attrs.get_mut(attr) {
            Some(v) => Ok(v),
            None => Err(ElementError::GetAttrError(string_of(attr))),
        }
    }

    /// The text of the element.
    pub fn get_text(&self) -> (r: Result<&String, ElementError>)
        ensures
            match r {
                Ok(t) => self.model().text == Some(t@),
                Err(e) => self.model().text is None && e == ElementError::GetTextError,
            },
    {
        match &self.text {
            Some(t) => Ok(t),
            None => Err(ElementError::GetTextError),
        }
    }

    /// The children of the element.
    pub fn get_elements(&self) -> (r: &Vec<Element>)
        ensures
            nodes(r@) == self.model().children,
    {
        proof {
            self.lemma_children();
        }
        &self.elements
    }

    /// The id of the element.
    pub fn get_id(&self) -> (r: u32)
        ensures
            r == self.model().id,
    {
        self.id
    }
}

impl Clone for Element {
    fn clone(&self) -> (e: Self)
        ensures
            e.model() == self.model(),
        decreases self,
    {
        let mut elements: Vec<Element> = Vec::new();
        let mut i: usize = 0;
        while i < self.elements.len()
            invariant
                i <= self.elements.len(),
                elements.len() == i,
                forall|j: int| 0 <= j < i ==> elements[j].model() == self.elements[j].model(),
            decreases self.elements.len() - i,
        {
            let k = self.elements[i].clone();
            elements.push(k);
            i += 1;
        }
        let e = Element {
            kind: self.kind.clone(),
            elements,
            text: copy_opt(&self.text),
            attrs: self.attrs.copy(),
            id: self.id,
        };
        proof {
            assert(e.model().children =~= self.model().children);
        }
        e
    }
}

/// The first node with the id `id` among `ns` is the one in or below the
/// first node, or else the first among the others.
pub proof fn lemma_find_split(ns: Seq<Node>, id: u32)
    requires
        ns.len() > 0,
    ensures
        find_in(ns, id) == match find_in(seq![ns[0]], id) {
            Some(n) => Some(n),
            None => find_in(ns.drop_first(), id),
        },
{
    let one = seq![ns[0]];
    assert(one.drop_first() =~= Seq::<Node>::empty());
    assert(find_in(one.drop_first(), id) is None);
}

impl Ast {
    /// The tree as a mathematical value.
    pub open spec fn model(&self) -> Seq<Node> {
        nodes(self.elements@)
    }

    /// The first element with the id `id`, in a walk that visits an element
    /// before its children and those before its later siblings.
    pub fn find(&self, id: u32) -> (r: Option<&Element>)
        ensures
            match r {
                Some(e) => find_in(self.model(), id) == Some(e.model()),
                None => find_in(self.model(), id) is None,
            },
    {
        Ast::find_in_list(&self.elements, id)
    }

    /// The first element with the id `id` in a list and below it.
    pub fn find_in_list(list: &Vec<Element>, id: u32) -> (r: Option<&Element>)
        ensures
            match r {
                Some(e) => find_in(nodes(list@), id) == Some(e.model()),
                None => find_in(nodes(list@), id) is None,
            },
        decreases list,
    {
        let ghost all = nodes(list@);
        let mut i: usize = 0;
        proof {
            assert(all.skip(0) =~= all);
        }
        while i < list.len()
            invariant
                i <= list.len(),
                all == nodes(list@),
                find_in(all, id) == find_in(all.skip(i as int), id),
            decreases list.len() - i,
        {
            proof {
                lemma_find_split(all.skip(i as int), id);
                assert(all.skip(i as int).drop_first() =~= all.skip(i + 1));
                assert(all.skip(i as int)[0] == list[i as int].model());
            }
            if let Some(e) = Ast::find_in_element(&list[i], id) {
                return Some(e);
            }
            i += 1;
        }
        None
    }

    /// The first element with the id `id` in `elm` and below it.
    pub fn find_in_element(elm: &Element, id: u32) -> (r: Option<&Element>)
        ensures
            match r {
                Some(e) => find_in(seq![elm.model()], id) == Some(e.model()),
                None => find_in(seq![elm.model()], id) is None,
            },
        decreases elm,
    {
        proof {
            elm.lemma_children();
            let one = seq![elm.model()];
            assert(one.drop_first() =~= Seq::<Node>::empty());
        }
        if elm.id == id {
            return Some(elm);
        }
        let r = Ast::find_in_list(&elm.elements, id);
        proof {
            let one = seq![elm.model()];
            assert(one[0] == elm.model());
            assert(find_in(one.drop_first(), id) is None);
            assert(find_in(one, id) == match find_in(elm.model().children, id) {
                Some(n) => Some(n),
                None => find_in(one.drop_first(), id),
            });
        }
        r
    }
}

impl Element {
    /// The first index of a child with the id `id`.
    pub fn child_position(&self, id: u32) -> (r: Option<usize>)
        ensures
            match r {
                Some(p) => p < self.elements.len() && p == position_of(
                    self.model().children,
                    id,
                    0,
                ),
                None => position_of(self.model().children, id, 0) == -1,
            },
    {
        let ghost kids = self.model().children;
        proof {
            self.lemma_children();
        }
        let mut i: usize = 0;
        while i < self.elements.len()
            invariant
                i <= self.elements.len(),
                kids == nodes(self.elements@),
                kids == self.model().children,
                position_of(kids, id, i as int) == position_of(kids, id, 0),
            decreases self.elements.len() - i,
        {
            proof {
                assert(kids[i as int] == self.elements[i as int].model());
            }
            if self.elements[i].id == id {
                return Some(i);
            }
            i += 1;
        }
        None
    }

    /// Adds `child` as the last child of the element that the ids
    /// `path[depth..]` lead to from here. An id that no child has is passed
    /// over.
    pub fn push_at_path(&mut self, path: &Vec<u32>, depth: usize, child: Element)
        requires
            depth <= path.len(),
        ensures
            final(self).model() == push_at(
                old(self).model(),
                path@.skip(depth as int),
                child.model(),
            ),
        decreases path.len() - depth,
    {
        let ghost rest = path@.skip(depth as int);
        if depth >= path.len() {
            self.elements.push(child);
            proof {
                assert(final(self).model().children =~= old(self).model().children.push(
                    child.model(),
                ));
            }
            return ;
        }
        proof {
            assert(rest.drop_first() =~= path@.skip(depth + 1));
            assert(rest[0] == path[depth as int]);
        }
        let id: u32 = path[depth];
        match self.child_position(id) {
            Some(p) => {
                let ghost before = self.elements@[p as int].model();
                self.elements[p].push_at_path(path, depth + 1, child);
                proof {
                    assert(final(self).model().children =~= old(self).model().children.update(
                        p as int,
                        push_at(before, rest.drop_first(), child.model()),
                    ));
                }
            },
            None => {
                self.push_at_path(path, depth + 1, child);
            },
        }
    }
}

impl Ast {
    /// The first element with the id `id`, to be changed in place.
    pub fn find_mut(&mut self, id: u32) -> (r: Option<&mut Element>)
        ensures
            match r {
                Some(e) => find_in(old(self).model(), id) == Some(e.model()) && final(self).model() == update_first(old(self).model(), id, final(e).model()),
                None => find_in(old(self).model(), id) is None && final(self).model() == old(self).model(),
            },
    {
        Ast::find_in_list_mut(&mut self.elements, id)
    }

    /// The first element with the id `id` in a list and below it, to be
    /// changed in place.
    pub fn find_in_list_mut(list: &mut Vec<Element>, id: u32) -> (r: Option<&mut Element>)
        ensures
            match r {
                Some(e) => find_in(nodes(old(list)@), id) == Some(e.model()) && nodes(
                    final(list)@,
                ) == update_first(nodes(old(list)@), id, final(e).model()),
                None => find_in(nodes(old(list)@), id) is None && nodes(final(list)@) == nodes(
                    old(list)@,
                ),
            },
        decreases *old(list),
    {
        let ghost all = nodes(list@);
        let mut i: usize = 0;
        proof {
            assert(all.skip(0) =~= all);
        }
        while i < list.len()
            invariant
                i <= list.len(),
                *list == *old(list),
                all == nodes(list@),
                forall|j: int| 0 <= j < i ==> find_in(seq![#[trigger] all[j]], id) is None,
            decreases list.len() - i,
        {
            let found = Ast::find_in_element(&list[i], id).is_some();
            if found {
                let r = Ast::find_in_element_mut(&mut list[i], id);
                proof {
                    lemma_update_at(all, i as int, id, final(r->0).model());
                }
                return r;
            }
            i += 1;
        }
        proof {
            lemma_update_at(all, all.len() as int, id, arbitrary());
        }
        None
    }

    /// The first element with the id `id` in `elm` and below it, to be
    /// changed in place.
    pub fn find_in_element_mut(elm: &mut Element, id: u32) -> (r: Option<&mut Element>)
        ensures
            match r {
                Some(e) => find_in(seq![old(elm).model()], id) == Some(e.model()) && seq![
                    final(elm).model(),
                ] == update_first(seq![old(elm).model()], id, final(e).model()),
                None => find_in(seq![old(elm).model()], id) is None && final(elm).model() == old(elm).model(),
            },
        decreases *old(elm),
    {
        let ghost fin = *final(elm);
        let ghost before = *old(elm);
        proof {
            before.lemma_children();
            fin.lemma_children();
            lemma_find_one(before.model(), id);
        }
        if elm.id == id {
            proof {
                lemma_update_one(before.model(), id, fin.model());
            }
            return Some(elm);
        }
        let r = Ast::find_in_list_mut(&mut elm.elements, id);
        proof {
            if r is Some {
                lemma_update_one(before.model(), id, final(r->0).model());
                assert(fin.model() == (Node {
                    children: update_first(before.model().children, id, final(r->0).model()),
                    ..before.model()
                }));
            }
        }
        r
    }
}

/// The first node with the id `id` in one node and below it.
pub proof fn lemma_find_one(n: Node, id: u32)
    ensures
        find_in(seq![n], id) == if n.id == id {
            Some(n)
        } else {
            find_in(n.children, id)
        },
{
    let one = seq![n];
    assert(one[0] == n);
    assert(one.drop_first() =~= Seq::<Node>::empty());
    assert(find_in(one.drop_first(), id) is None);
}

/// Replacing in or below one node.
pub proof fn lemma_update_one(n: Node, id: u32, new: Node)
    ensures
        update_first(seq![n], id, new) == if n.id == id {
            seq![new]
        } else if find_in(n.children, id) is Some {
            seq![Node { children: update_first(n.children, id, new), ..n }]
        } else {
            seq![n]
        },
{
    let one = seq![n];
    assert(one[0] == n);
    assert(one.drop_first() =~= Seq::<Node>::empty());
    assert(update_first(one.drop_first(), id, new) =~= Seq::<Node>::empty());
    if n.id == id {
        assert(seq![new] + one.drop_first() =~= seq![new]);
    } else if find_in(n.children, id) is Some {
        let m = Node { children: update_first(n.children, id, new), ..n };
        assert(seq![m] + one.drop_first() =~= seq![m]);
    } else {
        assert(seq![n] + update_first(one.drop_first(), id, new) =~= seq![n]);
    }
}

/// Replacing the first node with the id `id` by itself changes nothing, and
/// neither does replacing in nodes that hold no such node.
pub proof fn lemma_update_same(ns: Seq<Node>, id: u32, other: Node)
    ensures
        match find_in(ns, id) {
            Some(n) => update_first(ns, id, n) == ns,
            None => update_first(ns, id, other) == ns,
        },
    decreases ns,
{
    if ns.len() > 0 {
        let first = ns[0];
        if first.id == id {
            assert(seq![first] + ns.drop_first() =~= ns);
        } else if find_in(first.children, id) is Some {
            lemma_update_same(first.children, id, other);
            let n = find_in(first.children, id)->0;
            assert(Node { children: update_first(first.children, id, n), ..first } == first);
            assert(seq![first] + ns.drop_first() =~= ns);
        } else {
            lemma_update_same(ns.drop_first(), id, other);
            match find_in(ns.drop_first(), id) {
                Some(n) => {
                    assert(seq![first] + update_first(ns.drop_first(), id, n) =~= ns);
                },
                None => {
                    assert(seq![first] + update_first(ns.drop_first(), id, other) =~= ns);
                },
            }
        }
    }
}

/// Where the nodes before `at` hold no node with the id `id`, the first such
/// node is the first in or below the node at `at` and the nodes after it; and
/// replacing it leaves the nodes before `at` as they are.
pub proof fn lemma_update_at(ns: Seq<Node>, at: int, id: u32, new: Node)
    requires
        0 <= at <= ns.len(),
        forall|j: int| 0 <= j < at ==> find_in(seq![#[trigger] ns[j]], id) is None,
    ensures
        find_in(ns, id) == find_in(ns.skip(at), id),
        update_first(ns, id, new) == ns.take(at) + update_first(ns.skip(at), id, new),
        at < ns.len() && find_in(seq![ns[at]], id) is Some ==> find_in(ns, id) == find_in(
            seq![ns[at]],
            id,
        ) && update_first(ns, id, new) == ns.update(at, update_first(seq![ns[at]], id, new)[0]),
        at == ns.len() ==> find_in(ns, id) is None && update_first(ns, id, new) == ns,
    decreases at,
{
    if at == 0 {
        assert(ns.skip(0) =~= ns);
        assert(ns.take(0) + update_first(ns, id, new) =~= update_first(ns, id, new));
    } else {
        let first = ns[0];
        let rest = ns.drop_first();
        lemma_find_one(first, id);
        assert(find_in(seq![first], id) is None);
        assert forall|j: int| 0 <= j < at - 1 implies find_in(seq![#[trigger] rest[j]], id)
            is None by {
            assert(rest[j] == ns[j + 1]);
        }
        lemma_update_at(rest, at - 1, id, new);
        assert(rest.skip(at - 1) =~= ns.skip(at));
        assert(update_first(ns, id, new) == seq![first] + update_first(rest, id, new));
        assert(seq![first] + (rest.take(at - 1) + update_first(ns.skip(at), id, new)) =~= ns.take(
            at,
        ) + update_first(ns.skip(at), id, new));
    }
    if at < ns.len() {
        let here = ns[at];
        let tail = ns.skip(at);
        assert(tail[0] == here);
        assert(tail.drop_first() =~= ns.skip(at + 1));
        lemma_find_split(tail, id);
        lemma_find_one(here, id);
        lemma_update_one(here, id, new);
        if find_in(seq![here], id) is Some {
            let x = update_first(seq![here], id, new)[0];
            assert(update_first(tail, id, new) =~= seq![x] + ns.skip(at + 1));
            assert(ns.take(at) + (seq![x] + ns.skip(at + 1)) =~= ns.update(at, x));
        }
    } else {
        assert(ns.skip(at) =~= Seq::<Node>::empty());
        assert(ns.take(at) =~= ns);
        assert(ns.take(at) + Seq::<Node>::empty() =~= ns);
    }
}

impl Clone for Ast {
    fn clone(&self) -> (a: Self)
        ensures
            a.model() == self.model(),
    {
        let mut elements: Vec<Element> = Vec::new();
        let mut i: usize = 0;
        while i < self.elements.len()
            invariant
                i <= self.elements.len(),
                elements.len() == i,
                forall|j: int| 0 <= j < i ==> elements[j].model() == self.elements[j].model(),
            decreases self.elements.len() - i,
        {
            let k = self.elements[i].clone();
            elements.push(k);
            i += 1;
        }
        let a = Ast { elements };
        proof {
            assert(a.model() =~= self.model());
        }
        a
    }
}

} // verus!

verus! {

/// Adding an element to a list adds its value to the values.
pub proof fn lemma_nodes_push(elements: Seq<Element>, e: Element)
    ensures
        nodes(elements.push(e)) == nodes(elements).push(e.model()),
{
    assert(nodes(elements.push(e)) =~= nodes(elements).push(e.model()));
}

impl Element {
    /// An element without children.
    pub fn build(kind: Kind, id: u32, text: Option<String>, attrs: StrMap) -> (e: Self)
        ensures
            e.model() == (Node {
                kind: kind.model(),
                children: Seq::empty(),
                text: opt_text(text),
                attrs: attrs@,
                id,
            }),
    {
        let e = Element { kind, elements: Vec::new(), text, attrs, id };
        proof {
            assert(e.model().children =~= Seq::empty());
        }
        e
    }
}

} // verus!
