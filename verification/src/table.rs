//! A table of runtime states keyed by identifier.
use vstd::prelude::*;

use crate::model::RuntimeState;
use crate::text::str_eq;

verus! {

/// Runtime states keyed by the identifier of a server or a service.
/// Each identifier occurs at most once.
#[derive(Debug)]
pub struct StateTable<T> {
    entries: Vec<(String, RuntimeState<T>)>,
}

pub open spec fn has_key<T>(e: Seq<(String, RuntimeState<T>)>, k: Seq<char>) -> bool {
    exists|i: int| 0 <= i < e.len() && #[trigger] e[i].0@ == k
}

pub open spec fn keys_unique<T>(e: Seq<(String, RuntimeState<T>)>) -> bool {
    forall|i: int, j: int|
        0 <= i < e.len() && 0 <= j < e.len() && i != j ==> #[trigger] e[i].0@ != #[trigger] e[j].0@
}

pub open spec fn map_of<T>(e: Seq<(String, RuntimeState<T>)>) -> Map<Seq<char>, RuntimeState<T>> {
    Map::new(
        |k: Seq<char>| has_key(e, k),
        |k: Seq<char>| e[choose|i: int| 0 <= i < e.len() && #[trigger] e[i].0@ == k].1,
    )
}

proof fn lemma_map_of_at<T>(e: Seq<(String, RuntimeState<T>)>, i: int)
    requires
        keys_unique(e),
        0 <= i < e.len(),
    ensures
        map_of(e).contains_key(e[i].0@),
        map_of(e)[e[i].0@] == e[i].1,
{
    let k = e[i].0@;
    assert(has_key(e, k));
    let j = choose|j: int| 0 <= j < e.len() && #[trigger] e[j].0@ == k;
    assert(j == i);
}

impl<T: Copy> Clone for StateTable<T> {
    fn clone(&self) -> (r: Self)
        ensures
            r@ == self@,
            r.wf() == self.wf(),
    {
        let mut entries: Vec<(String, RuntimeState<T>)> = Vec::new();
        let mut i: usize = 0;
        while i < self.entries.len()
            invariant
                i <= self.entries@.len(),
                entries@ == self.entries@.take(i as int),
            decreases self.entries@.len() - i,
        {
            let e = &self.entries[i];
            entries.push((e.0.clone(), e.1.clone()));
            assert(self.entries@.take(i as int).push(self.entries@[i as int]) =~= self.entries@.take(
                i + 1,
            ));
            i = i + 1;
        }
        assert(self.entries@.take(self.entries@.len() as int) =~= self.entries@);
        StateTable { entries }
    }
}

impl<T> View for StateTable<T> {
    type V = Map<Seq<char>, RuntimeState<T>>;

    closed spec fn view(&self) -> Map<Seq<char>, RuntimeState<T>> {
        map_of(self.entries@)
    }
}

impl<T> StateTable<T> {
    pub closed spec fn wf(&self) -> bool {
        keys_unique(self.entries@)
    }

    /// An empty table.
    pub fn new() -> (r: Self)
        ensures
            r.wf(),
            r@ == Map::<Seq<char>, RuntimeState<T>>::empty(),
    {
        let r = StateTable { entries: Vec::new() };
        assert(r@ =~= Map::<Seq<char>, RuntimeState<T>>::empty());
        r
    }

    /// The number of identifiers in the table.
    pub fn len(&self) -> (n: usize)
        requires
            self.wf(),
        ensures
            n == self@.dom().len(),
    {
        proof {
            self.lemma_dom_len();
        }
        self.entries.len()
    }

    proof fn lemma_dom_len(&self)
        requires
            self.wf(),
        ensures
            self@.dom().finite(),
            self@.dom().len() == self.entries@.len(),
    {
        lemma_dom_len_seq(self.entries@);
    }

    /// The state kept for `id`, if any.
    pub fn get(&self, id: &str) -> (r: Option<&RuntimeState<T>>)
        requires
            self.wf(),
        ensures
            r is Some <==> self@.contains_key(id@),
            r is Some ==> *r->0 == self@[id@],
    {
        match self.find(id) {
            Some(i) => {
                proof {
                    lemma_map_of_at(self.entries@, i as int);
                }
                Some(&self.entries[i].1)
            },
            None => None,
        }
    }

    fn find(&self, id: &str) -> (r: Option<usize>)
        ensures
            r matches Some(i) ==> i < self.entries@.len() && self.entries@[i as int].0@ == id@,
            r is None ==> !has_key(self.entries@, id@),
    {
        let mut i: usize = 0;
        while i < self.entries.len()
            invariant
                i <= self.entries@.len(),
                forall|j: int| 0 <= j < i ==> #[trigger] self.entries@[j].0@ != id@,
            decreases self.entries@.len() - i,
        {
            if str_eq(self.entries[i].0.as_str(), id) {
                return Some(i);
            }
            i = i + 1;
        }
        None
    }

    /// Sets the state of `id`, replacing any earlier one.
    pub fn insert(&mut self, id: String, state: RuntimeState<T>)
        requires
            old(self).wf(),
        ensures
            final(self).wf(),
            final(self)@ == old(self)@.insert(id@, state),
    {
        let ghost k = id@;
        let ghost old_e = self.entries@;
        match self.find(id.as_str()) {
            Some(i) => {
                self.entries.set(i, (id, state));
                proof {
                    let e = self.entries@;
                    assert(keys_unique(e)) by {
                        assert forall|a: int, b: int|
                            0 <= a < e.len() && 0 <= b < e.len() && a != b implies #[trigger] e[a].0@
                            != #[trigger] e[b].0@ by {
                            assert(old_e[a].0@ != old_e[b].0@);
                        }
                    }
                    lemma_map_of_at(e, i as int);
                    assert(map_of(e) =~= map_of(old_e).insert(k, state)) by {
                        assert forall|key: Seq<char>| #[trigger]
                            map_of(e).contains_key(key) <==> map_of(old_e).insert(
                                k,
                                state,
                            ).contains_key(key) by {
                            if has_key(old_e, key) && key != k {
                                let j = choose|j: int| 0 <= j < old_e.len() && #[trigger] old_e[j].0@ == key;
                                assert(e[j].0@ == key);
                            }
                            if has_key(e, key) && key != k {
                                let j = choose|j: int| 0 <= j < e.len() && #[trigger] e[j].0@ == key;
                                assert(old_e[j].0@ == key);
                            }
                        }
                        assert forall|key: Seq<char>| map_of(e).contains_key(key) && key != k implies map_of(e)[key]
                            == map_of(old_e)[key] by {
                            let j = choose|j: int| 0 <= j < e.len() && #[trigger] e[j].0@ == key;
                            lemma_map_of_at(e, j);
                            assert(old_e[j].0@ == key);
                            lemma_map_of_at(old_e, j);
                        }
                    }
                }
            },
            None => {
                self.entries.push((id, state));
                proof {
                    let e = self.entries@;
                    assert(keys_unique(e)) by {
                        assert forall|a: int, b: int|
                            0 <= a < e.len() && 0 <= b < e.len() && a != b implies #[trigger] e[a].0@
                            != #[trigger] e[b].0@ by {
                            if a < old_e.len() && b < old_e.len() {
                                assert(old_e[a].0@ != old_e[b].0@);
                            } else if a < old_e.len() {
                                assert(old_e[a].0@ != k);
                            } else {
                                assert(old_e[b].0@ != k);
                            }
                        }
                    }
                    lemma_map_of_at(e, old_e.len() as int);
                    assert(map_of(e) =~= map_of(old_e).insert(k, state)) by {
                        assert forall|key: Seq<char>| #[trigger]
                            map_of(e).contains_key(key) <==> map_of(old_e).insert(
                                k,
                                state,
                            ).contains_key(key) by {
                            if has_key(old_e, key) {
                                let j = choose|j: int| 0 <= j < old_e.len() && #[trigger] old_e[j].0@ == key;
                                assert(e[j].0@ == key);
                            }
                            if has_key(e, key) && key != k {
                                let j = choose|j: int| 0 <= j < e.len() && #[trigger] e[j].0@ == key;
                                assert(old_e[j].0@ == key);
                            }
                        }
                        assert forall|key: Seq<char>| map_of(e).contains_key(key) && key != k implies map_of(e)[key]
                            == map_of(old_e)[key] by {
                            let j = choose|j: int| 0 <= j < e.len() && #[trigger] e[j].0@ == key;
                            lemma_map_of_at(e, j);
                            assert(old_e[j].0@ == key);
                            lemma_map_of_at(old_e, j);
                        }
                    }
                }
            },
        }
    }

    /// Sets the state of `id` unless it already has one.
    pub fn insert_if_absent(&mut self, id: String, state: RuntimeState<T>)
        requires
            old(self).wf(),
        ensures
            final(self).wf(),
            final(self)@ == if old(self)@.contains_key(id@) {
                old(self)@
            } else {
                old(self)@.insert(id@, state)
            },
    {
        if self.get(id.as_str()).is_none() {
            self.insert(id, state);
        }
    }

    /// Drops the state of `id`.
    pub fn remove(&mut self, id: &str)
        requires
            old(self).wf(),
        ensures
            final(self).wf(),
            final(self)@ == old(self)@.remove(id@),
    {
        let ghost k = id@;
        let ghost old_e = self.entries@;
        match self.find(id) {
            Some(i) => {
                self.entries.remove(i);
                proof {
                    let e = self.entries@;
                    assert(e =~= old_e.remove(i as int));
                    assert(keys_unique(e)) by {
                        assert forall|a: int, b: int|
                            0 <= a < e.len() && 0 <= b < e.len() && a != b implies #[trigger] e[a].0@
                            != #[trigger] e[b].0@ by {
                            let a2 = if a < i { a } else { a + 1 };
                            let b2 = if b < i { b } else { b + 1 };
                            assert(e[a] == old_e[a2]);
                            assert(e[b] == old_e[b2]);
                            assert(old_e[a2].0@ != old_e[b2].0@);
                        }
                    }
                    assert(map_of(e) =~= map_of(old_e).remove(k)) by {
                        assert forall|key: Seq<char>| #[trigger]
                            map_of(e).contains_key(key) <==> map_of(old_e).remove(k).contains_key(key) by {
                            if has_key(old_e, key) && key != k {
                                let j = choose|j: int| 0 <= j < old_e.len() && #[trigger] old_e[j].0@ == key;
                                assert(j != i);
                                let j2 = if j < i { j } else { j - 1 };
                                assert(e[j2] == old_e[j]);
                            }
                            if has_key(e, key) {
                                let j = choose|j: int| 0 <= j < e.len() && #[trigger] e[j].0@ == key;
                                let j2 = if j < i { j } else { j + 1 };
                                assert(e[j] == old_e[j2]);
                                assert(j2 != i);
                                assert(old_e[j2].0@ != old_e[i as int].0@);
                            }
                        }
                        assert forall|key: Seq<char>| map_of(e).contains_key(key) implies map_of(e)[key]
                            == map_of(old_e)[key] by {
                            let j = choose|j: int| 0 <= j < e.len() && #[trigger] e[j].0@ == key;
                            lemma_map_of_at(e, j);
                            let j2 = if j < i { j } else { j + 1 };
                            assert(e[j] == old_e[j2]);
                            lemma_map_of_at(old_e, j2);
                        }
                    }
                }
            },
            None => {
                proof {
                    assert(map_of(old_e) =~= map_of(old_e).remove(k));
                }
            },
        }
    }

    /// The identifiers and states that the table holds, each identifier once.
    pub fn entries(&self) -> (r: &Vec<(String, RuntimeState<T>)>)
        ensures
            map_of(r@) == self@,
            self.wf() ==> keys_unique(r@),
    {
        &self.entries
    }
}

proof fn lemma_dom_len_seq<T>(e: Seq<(String, RuntimeState<T>)>)
    requires
        keys_unique(e),
    ensures
        map_of(e).dom().finite(),
        map_of(e).dom().len() == e.len(),
    decreases e.len(),
{
    if e.len() == 0 {
        assert(map_of(e).dom() =~= Set::<Seq<char>>::empty());
    } else {
        let d = e.drop_last();
        let last = e.last().0@;
        assert(keys_unique(d)) by {
            assert forall|a: int, b: int|
                0 <= a < d.len() && 0 <= b < d.len() && a != b implies #[trigger] d[a].0@
                != #[trigger] d[b].0@ by {
                assert(e[a].0@ != e[b].0@);
            }
        }
        lemma_dom_len_seq(d);
        assert(map_of(e).dom() =~= map_of(d).dom().insert(last)) by {
            assert forall|k: Seq<char>| map_of(e).dom().contains(k) implies map_of(d).dom().insert(
                last,
            ).contains(k) by {
                let i = choose|i: int| 0 <= i < e.len() && #[trigger] e[i].0@ == k;
                if i < e.len() - 1 {
                    assert(d[i].0@ == k);
                }
            }
            assert forall|k: Seq<char>| map_of(d).dom().insert(last).contains(k) implies map_of(
                e,
            ).dom().contains(k) by {
                if k != last {
                    let i = choose|i: int| 0 <= i < d.len() && #[trigger] d[i].0@ == k;
                    assert(e[i].0@ == k);
                } else {
                    assert(e[e.len() - 1].0@ == k);
                }
            }
        }
        assert(!map_of(d).dom().contains(last)) by {
            if map_of(d).dom().contains(last) {
                let i = choose|i: int| 0 <= i < d.len() && #[trigger] d[i].0@ == last;
                assert(e[i].0@ == e[e.len() - 1].0@);
            }
        }
    }
}

} // verus!
