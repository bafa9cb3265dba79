//! A small map from text to text that remembers the order of insertion.

use vstd::prelude::*;
use crate::text::string_of;

verus! {

/// The map that a list of bindings stands for: a later binding of a key
/// replaces an earlier one.
pub open spec fn map_of(entries: Seq<(Seq<char>, Seq<char>)>) -> Map<Seq<char>, Seq<char>>
    decreases entries.len(),
{
    if entries.len() == 0 {
        Map::empty()
    } else {
        map_of(entries.drop_last()).insert(entries.last().0, entries.last().1)
    }
}

/// The position of the last binding of `key`, or -1 where it has none.
pub open spec fn last_binding(entries: Seq<(Seq<char>, Seq<char>)>, key: Seq<char>) -> int
    decreases entries.len(),
{
    if entries.len() == 0 {
        -1
    } else if entries.last().0 == key {
        entries.len() - 1
    } else {
        last_binding(entries.drop_last(), key)
    }
}

/// The list of bindings after `key` is bound to `value`: a key that was
/// bound keeps its place, a new key comes last.
pub open spec fn bind(
    entries: Seq<(Seq<char>, Seq<char>)>,
    key: Seq<char>,
    value: Seq<char>,
) -> Seq<(Seq<char>, Seq<char>)> {
    if last_binding(entries, key) >= 0 {
        entries.update(last_binding(entries, key), (key, value))
    } else {
        entries.push((key, value))
    }
}

/// The list of bindings after all of `more` are bound, one after the other.
pub open spec fn bind_all(
    entries: Seq<(Seq<char>, Seq<char>)>,
    more: Seq<(Seq<char>, Seq<char>)>,
) -> Seq<(Seq<char>, Seq<char>)>
    decreases more.len(),
{
    if more.len() == 0 {
        entries
    } else {
        bind(bind_all(entries, more.drop_last()), more.last().0, more.last().1)
    }
}

/// Every key is bound at most once.
pub open spec fn distinct_keys(entries: Seq<(Seq<char>, Seq<char>)>) -> bool {
    forall|i: int, j: int|
        0 <= i < j < entries.len() ==> (#[trigger] entries[i]).0 != (#[trigger] entries[j]).0
}

/// What [`last_binding`] finds is what [`map_of`] holds.
pub proof fn lemma_last_binding(entries: Seq<(Seq<char>, Seq<char>)>, key: Seq<char>)
    ensures
        -1 <= last_binding(entries, key) < entries.len(),
        last_binding(entries, key) >= 0 <==> map_of(entries).contains_key(key),
        last_binding(entries, key) >= 0 ==> entries[last_binding(entries, key)].0 == key
            && map_of(entries)[key] == entries[last_binding(entries, key)].1,
        forall|i: int|
            last_binding(entries, key) < i < entries.len() ==> (#[trigger] entries[i]).0 != key,
    decreases entries.len(),
{
    if entries.len() > 0 {
        lemma_last_binding(entries.drop_last(), key);
        if entries.last().0 != key {
            assert forall|i: int| last_binding(entries, key) < i < entries.len() implies (
            #[trigger] entries[i]).0 != key by {
                if i < entries.len() - 1 {
                    assert(entries.drop_last()[i] == entries[i]);
                }
            }
        }
    }
}

/// Rebinding a key at the place of its last binding is `insert` on the map.
pub proof fn lemma_update_last(
    entries: Seq<(Seq<char>, Seq<char>)>,
    at: int,
    key: Seq<char>,
    value: Seq<char>,
)
    requires
        0 <= at < entries.len(),
        entries[at].0 == key,
        forall|i: int| at < i < entries.len() ==> (#[trigger] entries[i]).0 != key,
    ensures
        map_of(entries.update(at, (key, value))) == map_of(entries).insert(key, value),
    decreases entries.len(),
{
    let updated = entries.update(at, (key, value));
    if at == entries.len() - 1 {
        assert(updated.drop_last() =~= entries.drop_last());
        assert(map_of(updated) =~= map_of(entries).insert(key, value));
    } else {
        lemma_update_last(entries.drop_last(), at, key, value);
        assert(updated.drop_last() =~= entries.drop_last().update(at, (key, value)));
        assert(entries.last().0 != key);
        assert(map_of(updated) =~= map_of(entries).insert(key, value));
    }
}

/// Binding a key after all others is `insert` on the map.
pub proof fn lemma_push_binding(
    entries: Seq<(Seq<char>, Seq<char>)>,
    key: Seq<char>,
    value: Seq<char>,
)
    ensures
        map_of(entries.push((key, value))) == map_of(entries).insert(key, value),
{
    assert(entries.push((key, value)).drop_last() =~= entries);
}

/// A map from text to text, kept as a list of bindings in the order in which
/// the keys were first inserted.
#[derive(Debug, PartialEq)]
pub struct StrMap {
    entries: Vec<(String, String)>,
}

impl StrMap {
    /// The bindings as plain sequences, in order.
    pub closed spec fn bindings(&self) -> Seq<(Seq<char>, Seq<char>)> {
        Seq::new(self.entries.len() as nat, |i: int| (self.entries[i].0@, self.entries[i].1@))
    }

    /// Every key is bound once.
    pub open spec fn wf(&self) -> bool {
        distinct_keys(self.bindings())
    }

    /// A map without bindings.
    pub fn new() -> (m: Self)
        ensures
            m@ == Map::<Seq<char>, Seq<char>>::empty(),
            m.bindings().len() == 0,
            m.wf(),
    {
        let m = StrMap { entries: Vec::new() };
        proof {
            assert(m.bindings() =~= Seq::empty());
        }
        m
    }

    /// The number of bindings.
    pub fn len(&self) -> (n: usize)
        ensures
            n == self.bindings().len(),
    {
        self.entries.len()
    }

    /// Whether the map has no binding.
    pub fn is_empty(&self) -> (r: bool)
        ensures
            r == (self.bindings().len() == 0),
    {
        self.entries.len() == 0
    }

    /// The key of the binding at position `i`.
    pub fn key_at(&self, i: usize) -> (k: &String)
        requires
            i < self.bindings().len(),
        ensures
            k@ == self.bindings()[i as int].0,
    {
        &self.entries[i].0
    }

    /// The value of the binding at position `i`.
    pub fn value_at(&self, i: usize) -> (v: &String)
        requires
            i < self.bindings().len(),
        ensures
            v@ == self.bindings()[i as int].1,
    {
        &self.entries[i].1
    }

    fn position(&self, key: &str) -> (r: Option<usize>)
        ensures
            match r {
                Some(i) => i == last_binding(self.bindings(), key@),
                None => last_binding(self.bindings(), key@) == -1,
            },
    {
        let mut i: usize = self.entries.len();
        proof {
            assert(self.bindings().take(i as int) =~= self.bindings());
        }
        while i > 0
            invariant
                i <= self.entries.len(),
                last_binding(self.bindings(), key@) == last_binding(
                    self.bindings().take(i as int),
                    key@,
                ),
            decreases i,
        {
            i -= 1;
            proof {
                assert(self.bindings().take(i + 1).drop_last() =~= self.bindings().take(
                    i as int,
                ));
            }
            if crate::text::text_equal(self.entries[i].0.as_str(), key) {
                return Some(i);
            }
        }
        None
    }

    /// Whether `key` is bound.
    pub fn contains_key(&self, key: &str) -> (r: bool)
        ensures
            r == self@.contains_key(key@),
    {
        proof {
            lemma_last_binding(self.bindings(), key@);
        }
        self.position(key).is_some()
    }

    /// The value bound to `key`.
    pub fn get(&self, key: &str) -> (r: Option<&String>)
        ensures
            match r {
                Some(v) => self@.contains_key(key@) && self@[key@] == v@,
                None => !self@.contains_key(key@),
            },
    {
        proof {
            lemma_last_binding(self.bindings(), key@);
        }
        match self.position(key) {
            Some(i) => Some(&self.entries[i].1),
            None => None,
        }
    }

    /// Binds `key` to `value`. A key that was bound keeps its place.
    pub fn insert(&mut self, key: &str, value: String)
        ensures
            final(self)@ == old(self)@.insert(key@, value@),
            final(self).bindings() == bind(old(self).bindings(), key@, value@),
            old(self).wf() ==> final(self).wf(),
            final(self).bindings().len() == old(self).bindings().len() + (if old(self)@.contains_key(key@) {
                0int
            } else {
                1int
            }),
    {
        proof {
            lemma_last_binding(self.bindings(), key@);
        }
        match self.position(key) {
            Some(i) => {
                let k = string_of(key);
                self.entries[i] = (k, value);
                proof {
                    assert(final(self).bindings() =~= old(self).bindings().update(
                        i as int,
                        (key@, value@),
                    ));
                    lemma_update_last(old(self).bindings(), i as int, key@, value@);
                }
            },
            None => {
                let k = string_of(key);
                self.entries.push((k, value));
                proof {
                    assert(final(self).bindings() =~= old(self).bindings().push((key@, value@)));
                    lemma_push_binding(old(self).bindings(), key@, value@);
                }
            },
        }
    }

    /// The value bound to `key`, to be changed in place.
    pub fn get_mut(&mut self, key: &str) -> (r: Option<&mut String>)
        ensures
            match r {
                Some(v) => old(self)@.contains_key(key@) && v@ == old(self)@[key@] && final(self)@ == old(self)@.insert(key@, final(v)@),
                None => !old(self)@.contains_key(key@) && final(self)@ == old(self)@,
            },
    {
        let ghost before = self.bindings();
        let ghost after = final(self).bindings();
        proof {
            lemma_last_binding(before, key@);
        }
        match self.position(key) {
            Some(i) => {
                let pair = &mut self.entries[i];
                let ghost was = *pair;
                let r = &mut pair.1;
                proof {
                    assert(after =~= before.update(i as int, (key@, final(r)@)));
                    lemma_update_last(before, i as int, key@, final(r)@);
                }
                Some(r)
            },
            None => None,
        }
    }

    /// A copy of the map.
    pub fn copy(&self) -> (m: Self)
        ensures
            m.bindings() == self.bindings(),
            m@ == self@,
    {
        let mut entries: Vec<(String, String)> = Vec::new();
        let mut i: usize = 0;
        while i < self.entries.len()
            invariant
                i <= self.entries.len(),
                entries.len() == i,
                forall|j: int|
                    0 <= j < i ==> (#[trigger] entries[j]).0@ == self.entries[j].0@
                        && entries[j].1@ == self.entries[j].1@,
            decreases self.entries.len() - i,
        {
            entries.push((self.entries[i].0.clone(), self.entries[i].1.clone()));
            i += 1;
        }
        let m = StrMap { entries };
        proof {
            assert(m.bindings() =~= self.bindings());
        }
        m
    }
}

impl View for StrMap {
    type V = Map<Seq<char>, Seq<char>>;

    closed spec fn view(&self) -> Map<Seq<char>, Seq<char>> {
        map_of(self.bindings())
    }
}

impl StrMap {
    /// The view is the map of the bindings.
    pub broadcast proof fn lemma_view(&self)
        ensures
            #[trigger] self@ == map_of(self.bindings()),
    {
    }
}

} // verus!
