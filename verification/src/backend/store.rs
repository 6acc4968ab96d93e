//! A small map keyed by strings, kept as a list of entries whose keys are
//! pairwise distinct.
use vstd::prelude::*;
use crate::contract::symbols::str_eq;

verus! {

/// A map from string keys to values; no key occurs twice.
#[derive(Debug)]
pub struct StrMap<V> {
    items: Vec<(String, V)>,
}

impl<V> StrMap<V> {
    /// No key occurs twice.
    #[verifier::type_invariant]
    spec fn distinct_keys(&self) -> bool {
        forall|i: int, j: int|
            0 <= i < self.items@.len() && 0 <= j < self.items@.len() && i != j
                ==> self.items@[i].0@ != self.items@[j].0@
    }

    spec fn has(&self, k: Seq<char>) -> bool {
        exists|i: int| 0 <= i < self.items@.len() && self.items@[i].0@ == k
    }

    spec fn pos(&self, k: Seq<char>) -> int {
        choose|i: int| 0 <= i < self.items@.len() && self.items@[i].0@ == k
    }
}

impl<V> View for StrMap<V> {
    type V = Map<Seq<char>, V>;

    closed spec fn view(&self) -> Map<Seq<char>, V> {
        Map::new(|k: Seq<char>| self.has(k), |k: Seq<char>| self.items@[self.pos(k)].1)
    }
}

/// The map of a list of entries whose keys are distinct.
spec fn entries_map<V>(items: Seq<(String, V)>) -> Map<Seq<char>, V> {
    Map::new(
        |k: Seq<char>| exists|i: int| 0 <= i < items.len() && items[i].0@ == k,
        |k: Seq<char>| items[choose|i: int| 0 <= i < items.len() && items[i].0@ == k].1,
    )
}

impl<V> StrMap<V> {
    proof fn lemma_view(&self)
        ensures
            self@ == entries_map(self.items@),
    {
        assert(self@ =~= entries_map(self.items@));
    }

    /// An empty map.
    pub fn new() -> (m: StrMap<V>)
        ensures
            m@ == Map::<Seq<char>, V>::empty(),
    {
        let m = StrMap { items: Vec::new() };
        assert(m@ =~= Map::<Seq<char>, V>::empty());
        m
    }

    /// Whether the map has no entry.
    pub fn is_empty(&self) -> (b: bool)
        ensures
            b == (self@.dom() == Set::<Seq<char>>::empty()),
    {
        if self.items.len() == 0 {
            assert(self@.dom() =~= Set::<Seq<char>>::empty());
            true
        } else {
            assert(self@.dom().contains(self.items@[0].0@));
            false
        }
    }

    fn index_of(&self, k: &str) -> (r: Option<usize>)
        ensures
            r is None <==> !self@.contains_key(k@),
            r matches Some(i) ==> i < self.items@.len() && self.items@[i as int].0@ == k@
                && self.pos(k@) == i,
    {
        proof {
            use_type_invariant(self);
        }
        let mut i: usize = 0;
        while i < self.items.len()
            invariant
                self.distinct_keys(),
                i <= self.items@.len(),
                forall|j: int| 0 <= j < i ==> self.items@[j].0@ != k@,
            decreases self.items@.len() - i,
        {
            if str_eq(self.items[i].0.as_str(), k) {
                proof {
                    let p = self.pos(k@);
                    assert(self.has(k@));
                    if p != i as int {
                        assert(self.items@[p].0@ != self.items@[i as int].0@);
                    }
                }
                return Some(i);
            }
            i = i + 1;
        }
        None
    }

    /// Whether `k` has an entry.
    pub fn contains_key(&self, k: &str) -> (b: bool)
        ensures
            b == self@.contains_key(k@),
    {
        self.index_of(k).is_some()
    }

    /// The value stored under `k`, if any.
    pub fn get(&self, k: &str) -> (r: Option<&V>)
        ensures
            r == if self@.contains_key(k@) {
                Some(&self@[k@])
            } else {
                None::<&V>
            },
    {
        match self.index_of(k) {
            Some(i) => Some(&self.items[i].1),
            None => None,
        }
    }

    /// Stores `v` under `k`, replacing any previous value.
    pub fn insert(&mut self, k: String, v: V)
        ensures
            final(self)@ == old(self)@.insert(k@, v),
    {
        proof {
            use_type_invariant(&*self);
        }
        let found = self.index_of(k.as_str());
        let ghost before = self.items@;
        let ghost kv = k@;
        let mut items: Vec<(String, V)> = Vec::new();
        std::mem::swap(&mut items, &mut self.items);
        match found {
            Some(i) => {
                items.set(i, (k, v));
                proof {
                    assert forall|a: int, b: int|
                        0 <= a < items@.len() && 0 <= b < items@.len() && a != b implies items@[a].0@
                        != items@[b].0@ by {
                        if a != i as int && b != i as int {
                            assert(before[a].0@ != before[b].0@);
                        } else if a == i as int {
                            assert(before[a].0@ != before[b].0@);
                        } else {
                            assert(before[a].0@ != before[b].0@);
                        }
                    }
                    assert forall|q: Seq<char>|
                        #[trigger] entries_map(items@).dom().contains(q) == (old(self)@.dom().contains(q)
                            || q == kv) by {
                        if old(self)@.dom().contains(q) {
                            let p = old(self).pos(q);
                            assert(items@[p].0@ == q);
                        }
                        if entries_map(items@).dom().contains(q) && q != kv {
                            let p = choose|p: int| 0 <= p < items@.len() && items@[p].0@ == q;
                            assert(before[p].0@ == q);
                        }
                    }
                    assert forall|q: Seq<char>| entries_map(items@).dom().contains(q) implies
                        #[trigger] entries_map(items@)[q] == old(self)@.insert(kv, v)[q] by {
                        let p = choose|p: int| 0 <= p < items@.len() && items@[p].0@ == q;
                        if q == kv {
                            assert(p == i as int);
                        } else {
                            let r = old(self).pos(q);
                            assert(before[r].0@ == q);
                            assert(p == r);
                        }
                    }
                    assert(entries_map(items@) =~= old(self)@.insert(kv, v));
                }
            },
            None => {
                items.push((k, v));
                proof {
                    let n = before.len() as int;
                    assert forall|a: int, b: int|
                        0 <= a < items@.len() && 0 <= b < items@.len() && a != b implies items@[a].0@
                        != items@[b].0@ by {
                        if a < n && b < n {
                            assert(before[a].0@ != before[b].0@);
                        } else if a == n {
                            assert(!old(self).has(kv));
                            assert(before[b].0@ != kv);
                        } else {
                            assert(!old(self).has(kv));
                            assert(before[a].0@ != kv);
                        }
                    }
                    assert forall|q: Seq<char>|
                        #[trigger] entries_map(items@).dom().contains(q) == (old(self)@.dom().contains(q)
                            || q == kv) by {
                        if old(self)@.dom().contains(q) {
                            let p = old(self).pos(q);
                            assert(items@[p].0@ == q);
                        }
                        if q == kv {
                            assert(items@[n].0@ == q);
                        }
                        if entries_map(items@).dom().contains(q) && q != kv {
                            let p = choose|p: int| 0 <= p < items@.len() && items@[p].0@ == q;
                            assert(p != n);
                            assert(before[p].0@ == q);
                        }
                    }
                    assert forall|q: Seq<char>| entries_map(items@).dom().contains(q) implies
                        #[trigger] entries_map(items@)[q] == old(self)@.insert(kv, v)[q] by {
                        let p = choose|p: int| 0 <= p < items@.len() && items@[p].0@ == q;
                        if q == kv {
                            assert(items@[n].0@ == q);
                            assert(p == n);
                        } else {
                            let r = old(self).pos(q);
                            assert(before[r].0@ == q);
                            assert(items@[r].0@ == q);
                            assert(p == r);
                        }
                    }
                    assert(entries_map(items@) =~= old(self)@.insert(kv, v));
                }
            },
        }
        self.items = items;
        proof {
            self.lemma_view();
        }
    }

    /// Removes the entry for `k`, if any.
    pub fn remove(&mut self, k: &str)
        ensures
            final(self)@ == old(self)@.remove(k@),
    {
        proof {
            use_type_invariant(&*self);
        }
        match self.index_of(k) {
            None => {
                assert(self@ =~= old(self)@.remove(k@));
            },
            Some(i) => {
                let ghost before = self.items@;
                let mut items: Vec<(String, V)> = Vec::new();
                std::mem::swap(&mut items, &mut self.items);
                let _ = items.remove(i);
                proof {
                    assert forall|a: int, b: int|
                        0 <= a < items@.len() && 0 <= b < items@.len() && a != b implies items@[a].0@
                        != items@[b].0@ by {
                        let a2 = if a < i { a } else { a + 1 };
                        let b2 = if b < i { b } else { b + 1 };
                        assert(items@[a] == before[a2]);
                        assert(items@[b] == before[b2]);
                        assert(before[a2].0@ != before[b2].0@);
                    }
                    assert forall|q: Seq<char>|
                        #[trigger] entries_map(items@).dom().contains(q) == (old(self)@.dom().contains(q)
                            && q != k@) by {
                        if old(self)@.dom().contains(q) && q != k@ {
                            let p = old(self).pos(q);
                            assert(p != i as int);
                            let p2 = if p < i { p } else { p - 1 };
                            assert(items@[p2] == before[p]);
                        }
                        if entries_map(items@).dom().contains(q) {
                            let p = choose|p: int| 0 <= p < items@.len() && items@[p].0@ == q;
                            let p2 = if p < i { p } else { p + 1 };
                            assert(items@[p] == before[p2]);
                            assert(before[p2].0@ == q);
                            if q == k@ {
                                assert(p2 != i as int);
                                assert(before[p2].0@ != before[i as int].0@);
                            }
                        }
                    }
                    assert forall|q: Seq<char>| entries_map(items@).dom().contains(q) implies
                        #[trigger] entries_map(items@)[q] == old(self)@.remove(k@)[q] by {
                        let p = choose|p: int| 0 <= p < items@.len() && items@[p].0@ == q;
                        let p2 = if p < i { p } else { p + 1 };
                        assert(items@[p] == before[p2]);
                        let r = old(self).pos(q);
                        assert(before[r].0@ == q);
                        if r != p2 {
                            assert(before[r].0@ != before[p2].0@);
                        }
                    }
                    assert(entries_map(items@) =~= old(self)@.remove(k@));
                }
                self.items = items;
                proof {
                    self.lemma_view();
                }
            },
        }
    }
}

} // verus!
