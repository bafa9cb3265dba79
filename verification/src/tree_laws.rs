//! Laws of the document tree: how often an id occurs.

use vstd::prelude::*;
use crate::tree::{count_id, find_in, position_of, push_at, update_first, Node};

verus! {

/// An id occurs in a node as often as below it, and once more where it is
/// the node's own.
pub proof fn lemma_count_one(n: Node, id: u32)
    ensures
        count_id(seq![n], id) == (if n.id == id {
            1nat
        } else {
            0nat
        }) + count_id(n.children, id),
{
    let one = seq![n];
    assert(one[0] == n);
    assert(one.drop_first() =~= Seq::<Node>::empty());
    assert(count_id(one.drop_first(), id) == 0);
}

/// An id occurs in two lists as often as in the one and in the other.
pub proof fn lemma_count_concat(a: Seq<Node>, b: Seq<Node>, id: u32)
    ensures
        count_id(a + b, id) == count_id(a, id) + count_id(b, id),
    decreases a.len(),
{
    if a.len() == 0 {
        assert(a + b =~= b);
    } else {
        assert((a + b)[0] == a[0]);
        assert((a + b).drop_first() =~= a.drop_first() + b);
        lemma_count_concat(a.drop_first(), b, id);
    }
}

/// Adding a node to a list adds its ids.
pub proof fn lemma_count_push(ns: Seq<Node>, n: Node, id: u32)
    ensures
        count_id(ns.push(n), id) == count_id(ns, id) + count_id(seq![n], id),
{
    assert(ns.push(n) =~= ns + seq![n]);
    lemma_count_concat(ns, seq![n], id);
}

/// Replacing a node of a list takes its ids away and adds those of the new
/// node.
pub proof fn lemma_count_update(ns: Seq<Node>, p: int, m: Node, id: u32)
    requires
        0 <= p < ns.len(),
    ensures
        count_id(ns.update(p, m), id) + count_id(seq![ns[p]], id) == count_id(ns, id) + count_id(
            seq![m],
            id,
        ),
{
    let head = ns.take(p);
    let tail = ns.skip(p + 1);
    assert(ns =~= (head + seq![ns[p]]) + tail);
    assert(ns.update(p, m) =~= (head + seq![m]) + tail);
    lemma_count_concat(head + seq![ns[p]], tail, id);
    lemma_count_concat(head, seq![ns[p]], id);
    lemma_count_concat(head + seq![m], tail, id);
    lemma_count_concat(head, seq![m], id);
}

/// Adding a child somewhere below a node adds the ids of the child.
pub proof fn lemma_count_push_at(n: Node, path: Seq<u32>, child: Node, id: u32)
    ensures
        count_id(seq![push_at(n, path, child)], id) == count_id(seq![n], id) + count_id(
            seq![child],
            id,
        ),
    decreases path.len(),
{
    lemma_count_one(n, id);
    lemma_count_one(push_at(n, path, child), id);
    if path.len() == 0 {
        lemma_count_push(n.children, child, id);
    } else {
        let p = position_of(n.children, path[0], 0);
        if 0 <= p < n.children.len() {
            let below = push_at(n.children[p], path.drop_first(), child);
            lemma_count_push_at(n.children[p], path.drop_first(), child, id);
            lemma_count_update(n.children, p, below, id);
        } else {
            lemma_count_push_at(n, path.drop_first(), child, id);
        }
    }
}

/// The node that is found has the id that was asked for, and occurs.
pub proof fn lemma_found(ns: Seq<Node>, id: u32)
    ensures
        match find_in(ns, id) {
            Some(n) => n.id == id && count_id(ns, id) >= 1,
            None => count_id(ns, id) == 0,
        },
    decreases ns,
{
    if ns.len() > 0 {
        let first = ns[0];
        if first.id != id {
            lemma_found(first.children, id);
            lemma_found(ns.drop_first(), id);
        }
    }
}

/// Replacing the first node with the id `id` takes its ids away and adds
/// those of the new node.
pub proof fn lemma_count_update_first(ns: Seq<Node>, id: u32, new: Node, x: u32)
    ensures
        match find_in(ns, id) {
            Some(n) => count_id(update_first(ns, id, new), x) + count_id(seq![n], x) == count_id(
                ns,
                x,
            ) + count_id(seq![new], x),
            None => update_first(ns, id, new) == ns,
        },
    decreases ns,
{
    if ns.len() > 0 {
        let first = ns[0];
        let rest = ns.drop_first();
        lemma_count_one(first, x);
        if first.id == id {
            assert((seq![new] + rest)[0] == new);
            lemma_count_concat(seq![new], rest, x);
            lemma_count_concat(seq![first], rest, x);
            assert(seq![first] + rest =~= ns);
        } else if find_in(first.children, id) is Some {
            let changed = Node { children: update_first(first.children, id, new), ..first };
            lemma_count_update_first(first.children, id, new, x);
            lemma_count_one(changed, x);
            lemma_count_concat(seq![changed], rest, x);
            lemma_count_concat(seq![first], rest, x);
            assert(seq![first] + rest =~= ns);
        } else {
            lemma_count_update_first(rest, id, new, x);
            lemma_count_concat(seq![first], update_first(rest, id, new), x);
            lemma_count_concat(seq![first], rest, x);
            assert(seq![first] + rest =~= ns);
            if find_in(rest, id) is None {
                assert(seq![first] + update_first(rest, id, new) =~= ns);
            }
        }
    }
}

} // verus!
