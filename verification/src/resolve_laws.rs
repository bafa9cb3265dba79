//! Laws of the expansion of custom elements.

use vstd::prelude::*;
use crate::custom::CustomModel;
use crate::frontmatter::FrontMatterModel;
use crate::parse_laws::{count_doc, issued_id, lemma_ids_differ, sound};
use crate::parse_model::{id_at, Doc, Fault};
use crate::resolve_model::{
    add_child, custom_ids, custom_node, expand, jobs_of, max_rounds, plugin_of, resolve,
    run_blog_list, run_job, run_jobs, run_navbar, run_round, set_template, template_of, unseen,
    wrapped, Job, PluginTag,
};
use crate::tree::{count_id, find_in, lemma_update_same, unique_ids, update_first, KindModel, Node};
use crate::tree_laws::{
    lemma_count_one, lemma_count_push, lemma_count_update_first, lemma_found,
};

verus! {

/// The node that replaces the first node with the id `id` is the first node
/// with that id afterwards.
pub proof fn lemma_find_after_update(ns: Seq<Node>, id: u32, new: Node)
    requires
        find_in(ns, id) is Some,
        new.id == id,
    ensures
        find_in(update_first(ns, id, new), id) == Some(new),
    decreases ns,
{
    let first = ns[0];
    let rest = ns.drop_first();
    if first.id == id {
        let out = seq![new] + rest;
        assert(out[0] == new);
    } else if find_in(first.children, id) is Some {
        lemma_find_after_update(first.children, id, new);
        let changed = Node { children: update_first(first.children, id, new), ..first };
        let out = seq![changed] + rest;
        assert(out[0] == changed);
    } else {
        lemma_find_after_update(rest, id, new);
        let out = seq![first] + update_first(rest, id, new);
        assert(out[0] == first);
        assert(out.drop_first() =~= update_first(rest, id, new));
    }
}

/// The custom elements of two lists are those of the one and then those of
/// the other.
pub proof fn lemma_custom_ids_concat(a: Seq<Node>, b: Seq<Node>)
    ensures
        custom_ids(a + b) == custom_ids(a) + custom_ids(b),
    decreases a.len(),
{
    if a.len() == 0 {
        assert(a + b =~= b);
        assert(custom_ids(a) + custom_ids(b) =~= custom_ids(b));
    } else {
        assert((a + b)[0] == a[0]);
        assert((a + b).drop_first() =~= a.drop_first() + b);
        lemma_custom_ids_concat(a.drop_first(), b);
        let own = if a[0].kind is CustomElement {
            seq![a[0].id]
        } else {
            Seq::<u32>::empty()
        };
        assert(own + custom_ids(a[0].children) + (custom_ids(a.drop_first()) + custom_ids(b))
            =~= (own + custom_ids(a[0].children) + custom_ids(a.drop_first())) + custom_ids(b));
    }
}

/// A node that differs from the one it replaces in what it holds only, not
/// in its id, its children, or in being a custom element, leaves the ids of
/// the custom elements as they are.
pub proof fn lemma_custom_ids_update(ns: Seq<Node>, id: u32, new: Node)
    requires
        match find_in(ns, id) {
            Some(n) => new.id == n.id && new.children == n.children && (new.kind
                is CustomElement) == (n.kind is CustomElement),
            None => true,
        },
    ensures
        custom_ids(update_first(ns, id, new)) == custom_ids(ns),
    decreases ns,
{
    if ns.len() > 0 {
        let first = ns[0];
        let rest = ns.drop_first();
        if first.id == id {
            let out = seq![new] + rest;
            assert(out[0] == new);
            assert(out.drop_first() =~= rest);
        } else if find_in(first.children, id) is Some {
            lemma_custom_ids_update(first.children, id, new);
            let changed = Node { children: update_first(first.children, id, new), ..first };
            let out = seq![changed] + rest;
            assert(out[0] == changed);
            assert(out.drop_first() =~= rest);
        } else {
            lemma_custom_ids_update(rest, id, new);
            let out = seq![first] + update_first(rest, id, new);
            assert(out[0] == first);
            assert(out.drop_first() =~= update_first(rest, id, new));
        }
    }
}

/// Fixed point: a document whose one custom element names no plugin is
/// expanded in one round, and expanding the outcome again changes nothing.
pub proof fn lemma_single_round(
    st: Doc,
    own: FrontMatterModel,
    others: Seq<Option<FrontMatterModel>>,
    id: u32,
)
    requires
        st.has_custom,
        custom_ids(st.ast) == seq![id],
        find_in(st.ast, id) matches Some(n) && (n.kind matches KindModel::CustomElement(c)
            && plugin_of(c.name) is None),
    ensures
        expand(st, own, others, Seq::empty(), max_rounds()) matches Ok((d, rounds)) && rounds == 1
            && resolve(st, own, others) == Ok::<Doc, Fault>(d) && resolve(d, own, others) == Ok::<
            Doc,
            Fault,
        >(d),
{
    let ids = seq![id];
    let n = find_in(st.ast, id)->0;
    let c = n.kind->CustomElement_0;
    lemma_found(st.ast, id);
    lemma_one_job(st.ast, id);
    lemma_unseen_one(id);
    let job = Job { id, name: c.name, data: c.values };
    let jobs = seq![job];
    assert(run_jobs(st, own, others, jobs, 1) == Ok::<Doc, Fault>(st));
    let d = run_job(st, own, others, job)->Ok_0;
    assert(run_jobs(d, own, others, jobs, 1) == Ok::<Doc, Fault>(d));
    assert(run_jobs(st, own, others, jobs, 0) == Ok::<Doc, Fault>(d));
    assert(run_round(st, own, others, ids) == Ok::<Doc, Fault>(d));
    match template_of(c.name) {
        Some(t) => {
            let set = Node {
                kind: KindModel::CustomElement(CustomModel { template: Some(t), ..c }),
                ..n
            };
            lemma_custom_ids_update(st.ast, id, set);
            lemma_find_after_update(st.ast, id, set);
            lemma_one_job(d.ast, id);
            lemma_update_same(d.ast, id, set);
            assert(set_template(d.ast, id, t) == d.ast);
            assert(run_job(d, own, others, job) == Ok::<Doc, Fault>(d));
        },
        None => {
            assert(d == st);
        },
    }
    assert(custom_ids(d.ast) == ids);
    assert(expand(d, own, others, ids, 4) == Ok::<(Doc, nat), Fault>((d, 0)));
    assert(expand(st, own, others, Seq::empty(), 5) == Ok::<(Doc, nat), Fault>((d, 1)));
    assert(run_jobs(d, own, others, jobs, 0) == Ok::<Doc, Fault>(d));
    assert(run_round(d, own, others, ids) == Ok::<Doc, Fault>(d));
    assert(expand(d, own, others, Seq::empty(), 5) == Ok::<(Doc, nat), Fault>((d, 1)));
}

proof fn lemma_one_job(ast: Seq<Node>, id: u32)
    requires
        find_in(ast, id) matches Some(n) && n.kind is CustomElement,
    ensures
        jobs_of(ast, seq![id]) == seq![
            Job {
                id,
                name: find_in(ast, id)->0.kind->CustomElement_0.name,
                data: find_in(ast, id)->0.kind->CustomElement_0.values,
            },
        ],
{
    lemma_found(ast, id);
    let ids = seq![id];
    assert(ids.drop_last() =~= Seq::<u32>::empty());
    assert(jobs_of(ast, ids.drop_last()) =~= Seq::<Job>::empty());
    let n = find_in(ast, id)->0;
    let c = n.kind->CustomElement_0;
    assert(Seq::<Job>::empty().push(Job { id: n.id, name: c.name, data: c.values }) =~= seq![
        Job { id, name: c.name, data: c.values },
    ]);
}

proof fn lemma_unseen_one(id: u32)
    ensures
        unseen(seq![id], Seq::empty()) == seq![id],
        unseen(seq![id], seq![id]) == Seq::<u32>::empty(),
{
    let ids = seq![id];
    assert(ids.drop_last() =~= Seq::<u32>::empty());
    assert(ids.last() == id);
    assert(!Seq::<u32>::empty().contains(id));
    assert(ids.contains(id)) by {
        assert(ids[0] == id);
    }
    assert(unseen(ids.drop_last(), Seq::empty()).push(id) =~= seq![id]);
    assert(unseen(ids.drop_last(), ids) =~= Seq::<u32>::empty());
    assert(unseen(ids, ids) == unseen(ids.drop_last(), ids));
}

/// The custom elements that a plugin makes, from the one at `from` on.
pub open spec fn made(
    seed: u32,
    first: int,
    item: Seq<char>,
    values: Seq<Map<Seq<char>, Seq<char>>>,
    n: int,
) -> Seq<Node> {
    Seq::new(
        n as nat,
        |k: int| custom_node(item, values[k], Seq::empty(), id_at(seed, first + k)),
    )
}

proof fn lemma_made_count(
    seed: u32,
    first: int,
    item: Seq<char>,
    values: Seq<Map<Seq<char>, Seq<char>>>,
    n: int,
    x: u32,
)
    requires
        0 <= first,
        0 <= n,
        first + n <= 0x1_0000_0000,
    ensures
        count_id(made(seed, first, item, values, n), x) <= 1,
        count_id(made(seed, first, item, values, n), x) >= 1 ==> exists|k: int|
            first <= k < first + n && x == #[trigger] id_at(seed, k),
    decreases n,
{
    if n > 0 {
        lemma_made_count(seed, first, item, values, n - 1, x);
        let last = custom_node(item, values[n - 1], Seq::empty(), id_at(seed, first + n - 1));
        assert(made(seed, first, item, values, n) =~= made(seed, first, item, values, n - 1).push(
            last,
        ));
        lemma_count_push(made(seed, first, item, values, n - 1), last, x);
        lemma_count_one(last, x);
        if count_id(made(seed, first, item, values, n - 1), x) >= 1 {
            let k = choose|k: int| first <= k < first + n - 1 && x == #[trigger] id_at(seed, k);
            lemma_ids_differ(seed, k, first + n - 1);
        }
        if last.id == x {
            assert(first <= first + n - 1 < first + n && x == id_at(seed, first + n - 1));
        }
    }
}

/// What a plugin adds keeps the document sound.
pub proof fn lemma_wrapped_sound(
    st: Doc,
    wrapper: Seq<char>,
    item: Seq<char>,
    values: Seq<Map<Seq<char>, Seq<char>>>,
    id: u32,
)
    requires
        sound(st),
        st.current is None,
    ensures
        match wrapped(st, wrapper, item, values) {
            Ok((w, st1)) => sound(Doc { ast: add_child(st1.ast, id, w), ..st1 }),
            Err(_) => true,
        },
{
    let n = values.len() as int;
    if st.issued + n + 1 <= u32::MAX {
        let w = wrapped(st, wrapper, item, values)->Ok_0.0;
        let st1 = wrapped(st, wrapper, item, values)->Ok_0.1;
        let d = Doc { ast: add_child(st1.ast, id, w), ..st1 };
        assert(w.children =~= made(st.seed, st.issued, item, values, n));
        assert forall|x: u32| #![trigger count_doc(d, x)] count_doc(d, x) <= 1 && (count_doc(d, x)
            >= 1 ==> issued_id(d, x)) by {
            lemma_made_count(st.seed, st.issued, item, values, n, x);
            lemma_count_one(w, x);
            lemma_found(st.ast, id);
            if count_id(w.children, x) >= 1 {
                let k = choose|k: int|
                    st.issued <= k < st.issued + n && x == #[trigger] id_at(st.seed, k);
                lemma_ids_differ(st.seed, k, st.issued + n);
            }
            if count_doc(st, x) >= 1 {
                assert(issued_id(st, x));
                let k = choose|k: int| 0 <= k < st.issued && x == #[trigger] id_at(st.seed, k);
                assert(0 <= k < d.issued && x == id_at(d.seed, k));
                lemma_ids_differ(st.seed, k, st.issued + n);
                if count_id(w.children, x) >= 1 {
                    let j = choose|j: int|
                        st.issued <= j < st.issued + n && x == #[trigger] id_at(st.seed, j);
                    lemma_ids_differ(st.seed, k, j);
                }
            }
            if count_id(seq![w], x) >= 1 {
                if w.id == x {
                    assert(0 <= st.issued + n < d.issued && x == id_at(d.seed, st.issued + n));
                } else {
                    let j = choose|j: int|
                        st.issued <= j < st.issued + n && x == #[trigger] id_at(st.seed, j);
                    assert(0 <= j < d.issued && x == id_at(d.seed, j));
                }
            }
            match find_in(st.ast, id) {
                Some(owner) => {
                    let grown = Node { children: owner.children.push(w), ..owner };
                    lemma_count_update_first(st.ast, id, grown, x);
                    lemma_count_one(owner, x);
                    lemma_count_one(grown, x);
                    lemma_count_push(owner.children, w, x);
                    assert(count_id(d.ast, x) == count_id(st.ast, x) + count_id(seq![w], x));
                },
                None => {
                    assert(d.ast == st.ast);
                },
            }
        }
    }
}

/// Setting a template keeps the document sound.
pub proof fn lemma_template_sound(st: Doc, id: u32, t: Seq<char>)
    requires
        sound(st),
        st.current is None,
    ensures
        sound(Doc { ast: set_template(st.ast, id, t), ..st }),
{
    let d = Doc { ast: set_template(st.ast, id, t), ..st };
    assert forall|x: u32| #![trigger count_doc(d, x)] count_doc(d, x) <= 1 && (count_doc(d, x)
        >= 1 ==> issued_id(d, x)) by {
        match find_in(st.ast, id) {
            Some(n) => match n.kind {
                KindModel::CustomElement(c) => {
                    let set = Node {
                        kind: KindModel::CustomElement(CustomModel { template: Some(t), ..c }),
                        ..n
                    };
                    lemma_count_update_first(st.ast, id, set, x);
                    lemma_count_one(n, x);
                    lemma_count_one(set, x);
                },
                _ => {},
            },
            None => {},
        }
        assert(count_doc(d, x) == count_doc(st, x));
        if count_doc(st, x) >= 1 {
            assert(issued_id(st, x));
            let k = choose|k: int| 0 <= k < st.issued && x == #[trigger] id_at(st.seed, k);
            assert(0 <= k < d.issued && x == id_at(d.seed, k));
        }
    }
}

/// The outcome is a failure, or a sound document in which no element is
/// open.
pub open spec fn ok_closed(r: Result<Doc, Fault>) -> bool {
    match r {
        Ok(d) => sound(d) && d.current is None,
        Err(_) => true,
    }
}

/// Expanding one custom element keeps the document sound.
pub proof fn lemma_job_sound(
    st: Doc,
    own: FrontMatterModel,
    others: Seq<Option<FrontMatterModel>>,
    job: Job,
)
    requires
        sound(st),
        st.current is None,
    ensures
        ok_closed(run_job(st, own, others, job)),
{
    let ran = match plugin_of(job.name) {
        Some(PluginTag::Navbar) => run_navbar(st, own, others, job.id),
        Some(PluginTag::BlogList) => run_blog_list(st, others, job.id, job.data),
        None => Ok(st),
    };
    lemma_all_wrapped_sound(st, job.id);
    match ran {
        Err(_) => {},
        Ok(st1) => {
            match template_of(job.name) {
                Some(t) => {
                    lemma_template_sound(st1, job.id, t);
                },
                None => {},
            }
        },
    }
}

proof fn lemma_all_wrapped_sound(st: Doc, id: u32)
    requires
        sound(st),
        st.current is None,
    ensures
        forall|wrapper: Seq<char>, item: Seq<char>, values: Seq<Map<Seq<char>, Seq<char>>>|
            match #[trigger] wrapped(st, wrapper, item, values) {
                Ok((w, st1)) => sound(Doc { ast: add_child(st1.ast, id, w), ..st1 })
                    && st1.current is None,
                Err(_) => true,
            },
{
    assert forall|wrapper: Seq<char>, item: Seq<char>, values: Seq<Map<Seq<char>, Seq<char>>>|
        match #[trigger] wrapped(st, wrapper, item, values) {
            Ok((w, st1)) => sound(Doc { ast: add_child(st1.ast, id, w), ..st1 }) && st1.current
                is None,
            Err(_) => true,
        } by {
        lemma_wrapped_sound(st, wrapper, item, values, id);
    }
}

/// Expanding custom elements one after the other keeps the document sound.
pub proof fn lemma_jobs_sound(
    st: Doc,
    own: FrontMatterModel,
    others: Seq<Option<FrontMatterModel>>,
    jobs: Seq<Job>,
    from: int,
)
    requires
        sound(st),
        st.current is None,
    ensures
        ok_closed(run_jobs(st, own, others, jobs, from)),
    decreases jobs.len() - from,
{
    if 0 <= from < jobs.len() {
        lemma_job_sound(st, own, others, jobs[from]);
        match run_job(st, own, others, jobs[from]) {
            Err(_) => {},
            Ok(st1) => {
                lemma_jobs_sound(st1, own, others, jobs, from + 1);
            },
        }
    }
}

/// The rounds of an expansion keep the document sound.
pub proof fn lemma_expand_sound(
    st: Doc,
    own: FrontMatterModel,
    others: Seq<Option<FrontMatterModel>>,
    seen: Seq<u32>,
    rounds: nat,
)
    requires
        sound(st),
        st.current is None,
    ensures
        match expand(st, own, others, seen, rounds) {
            Ok((d, _)) => sound(d) && d.current is None,
            Err(_) => true,
        },
    decreases rounds,
{
    let current = custom_ids(st.ast);
    let fresh = unseen(current, seen);
    if !(rounds == 0 || fresh.len() == 0) {
        lemma_jobs_sound(st, own, others, jobs_of(st.ast, fresh), 0);
        match run_round(st, own, others, fresh) {
            Err(_) => {},
            Ok(st1) => {
                lemma_expand_sound(st1, own, others, current, (rounds - 1) as nat);
            },
        }
    }
}

/// Unique ids: the expansion of the custom elements of a document in whose
/// tree no id occurs twice leaves no id that occurs twice.
pub proof fn lemma_resolve_sound(
    st: Doc,
    own: FrontMatterModel,
    others: Seq<Option<FrontMatterModel>>,
)
    requires
        sound(st),
        st.current is None,
    ensures
        match resolve(st, own, others) {
            Ok(d) => sound(d) && unique_ids(d.ast),
            Err(_) => true,
        },
{
    lemma_expand_sound(st, own, others, Seq::empty(), max_rounds());
    match resolve(st, own, others) {
        Ok(d) => {
            assert forall|id: u32| count_id(d.ast, id) <= 1 by {
                assert(count_doc(d, id) <= 1);
            }
        },
        Err(_) => {},
    }
}

} // verus!

verus! {

/// Adding a child takes no id out of the tree.
pub proof fn lemma_add_child_grows(ast: Seq<Node>, id: u32, child: Node, x: u32)
    ensures
        count_id(add_child(ast, id, child), x) >= count_id(ast, x),
{
    match find_in(ast, id) {
        Some(owner) => {
            let grown = Node { children: owner.children.push(child), ..owner };
            lemma_count_update_first(ast, id, grown, x);
            lemma_count_one(owner, x);
            lemma_count_one(grown, x);
            lemma_count_push(owner.children, child, x);
        },
        None => {},
    }
}

/// Setting a template takes no id out of the tree.
pub proof fn lemma_set_template_keeps(ast: Seq<Node>, id: u32, t: Seq<char>, x: u32)
    ensures
        count_id(set_template(ast, id, t), x) == count_id(ast, x),
{
    match find_in(ast, id) {
        Some(n) => match n.kind {
            KindModel::CustomElement(c) => {
                let set = Node {
                    kind: KindModel::CustomElement(CustomModel { template: Some(t), ..c }),
                    ..n
                };
                lemma_count_update_first(ast, id, set, x);
                lemma_count_one(n, x);
                lemma_count_one(set, x);
            },
            _ => {},
        },
        None => {},
    }
}

/// Expanding a custom element takes no id out of the tree.
pub proof fn lemma_job_grows(
    st: Doc,
    own: FrontMatterModel,
    others: Seq<Option<FrontMatterModel>>,
    job: Job,
    x: u32,
)
    ensures
        match run_job(st, own, others, job) {
            Ok(st1) => count_id(st1.ast, x) >= count_id(st.ast, x),
            Err(_) => true,
        },
{
    let ran = match plugin_of(job.name) {
        Some(PluginTag::Navbar) => run_navbar(st, own, others, job.id),
        Some(PluginTag::BlogList) => run_blog_list(st, others, job.id, job.data),
        None => Ok(st),
    };
    assert forall|wrapper: Seq<char>, item: Seq<char>, values: Seq<Map<Seq<char>, Seq<char>>>|
        match #[trigger] wrapped(st, wrapper, item, values) {
            Ok((w, st1)) => count_id(add_child(st1.ast, job.id, w), x) >= count_id(st.ast, x),
            Err(_) => true,
        } by {
        match wrapped(st, wrapper, item, values) {
            Ok((w, st1)) => {
                lemma_add_child_grows(st1.ast, job.id, w, x);
            },
            Err(_) => {},
        }
    }
    match ran {
        Err(_) => {},
        Ok(st1) => {
            match template_of(job.name) {
                Some(t) => {
                    lemma_set_template_keeps(st1.ast, job.id, t, x);
                },
                None => {},
            }
        },
    }
}

/// Every custom element from `from` on is in the tree when its turn comes.
pub open spec fn all_found(
    st: Doc,
    own: FrontMatterModel,
    others: Seq<Option<FrontMatterModel>>,
    jobs: Seq<Job>,
    from: int,
) -> bool
    decreases jobs.len() - from,
{
    if from < 0 || from >= jobs.len() {
        true
    } else {
        find_in(st.ast, jobs[from].id) is Some && (match run_job(st, own, others, jobs[from]) {
            Ok(st1) => all_found(st1, own, others, jobs, from + 1),
            Err(_) => true,
        })
    }
}

proof fn lemma_all_found(
    st: Doc,
    own: FrontMatterModel,
    others: Seq<Option<FrontMatterModel>>,
    jobs: Seq<Job>,
    from: int,
)
    requires
        forall|k: int| 0 <= k < jobs.len() ==> count_id(st.ast, (#[trigger] jobs[k]).id) >= 1,
    ensures
        all_found(st, own, others, jobs, from),
    decreases jobs.len() - from,
{
    if 0 <= from < jobs.len() {
        lemma_found(st.ast, jobs[from].id);
        assert(count_id(st.ast, jobs[from].id) >= 1);
        match run_job(st, own, others, jobs[from]) {
            Ok(st1) => {
                assert forall|k: int| 0 <= k < jobs.len() implies count_id(
                    st1.ast,
                    (#[trigger] jobs[k]).id,
                ) >= 1 by {
                    lemma_job_grows(st, own, others, jobs[from], jobs[k].id);
                }
                lemma_all_found(st1, own, others, jobs, from + 1);
            },
            Err(_) => {},
        }
    }
}

proof fn lemma_jobs_are_in_the_tree(ast: Seq<Node>, ids: Seq<u32>)
    ensures
        forall|k: int|
            0 <= k < jobs_of(ast, ids).len() ==> count_id(
                ast,
                (#[trigger] jobs_of(ast, ids)[k]).id,
            ) >= 1,
    decreases ids.len(),
{
    if ids.len() > 0 {
        lemma_jobs_are_in_the_tree(ast, ids.drop_last());
        lemma_found(ast, ids.last());
        let before = jobs_of(ast, ids.drop_last());
        let all = jobs_of(ast, ids);
        assert forall|k: int| 0 <= k < all.len() implies count_id(ast, (#[trigger] all[k]).id)
            >= 1 by {
            if k < before.len() {
                assert(all[k] == before[k]);
            }
        }
    }
}

/// A plugin always finds its custom element: in a round of the expansion,
/// every custom element that is expanded is in the tree when its turn comes.
pub proof fn lemma_plugins_find_their_elements(
    st: Doc,
    own: FrontMatterModel,
    others: Seq<Option<FrontMatterModel>>,
    ids: Seq<u32>,
)
    ensures
        all_found(st, own, others, jobs_of(st.ast, ids), 0),
{
    lemma_jobs_are_in_the_tree(st.ast, ids);
    lemma_all_found(st, own, others, jobs_of(st.ast, ids), 0);
}

} // verus!
