//! A small map keyed by [`Address`], kept as a list of entries with distinct
//! keys (one storage entry per key on the ledger).
use vstd::prelude::*;
use crate::contract::types::Address;

verus! {

pub struct AddrMap<V> {
    entries: Vec<(Address, V)>,
}

impl<V> AddrMap<V> {
    spec fn key_at(&self, i: int) -> Address {
        self.entries@[i].0
    }

    /// Position of the entry for `k` (meaningful when there is one).
    spec fn pos(&self, k: Address) -> int {
        choose|i: int| 0 <= i < self.entries@.len() && self.entries@[i].0 == k
    }

    spec fn has(&self, k: Address) -> bool {
        exists|i: int| 0 <= i < self.entries@.len() && self.entries@[i].0 == k
    }

    /// No key occurs twice.
    pub closed spec fn wf(&self) -> bool {
        forall|i: int, j: int|
            0 <= i < self.entries@.len() && 0 <= j < self.entries@.len() && i != j
                ==> self.entries@[i].0 != self.entries@[j].0
    }

    /// The keys, in the order they were first inserted.
    pub closed spec fn key_order(&self) -> Seq<Address> {
        self.entries@.map_values(|e: (Address, V)| e.0)
    }
}

impl<V> View for AddrMap<V> {
    type V = Map<Address, V>;

    closed spec fn view(&self) -> Map<Address, V> {
        Map::new(|k: Address| self.has(k), |k: Address| self.entries@[self.pos(k)].1)
    }
}

impl<V> AddrMap<V> {
    pub fn new() -> (m: AddrMap<V>)
        ensures
            m.wf(),
            m@ == Map::<Address, V>::empty(),
            m.key_order() == Seq::<Address>::empty(),
    {
        let m = AddrMap { entries: Vec::new() };
        assert(m@ =~= Map::<Address, V>::empty());
        assert(m.key_order() =~= Seq::<Address>::empty());
        m
    }

    fn index_of(&self, k: &Address) -> (r: Option<usize>)
        requires
            self.wf(),
        ensures
            r is None <==> !self@.contains_key(*k),
            r matches Some(i) ==> i < self.entries@.len() && self.entries@[i as int].0 == *k
                && self.pos(*k) == i,
    {
        let mut i: usize = 0;
        while i < self.entries.len()
            invariant
                self.wf(),
                i <= self.entries@.len(),
                forall|j: int| 0 <= j < i ==> self.entries@[j].0 != *k,
            decreases self.entries@.len() - i,
        {
            if self.entries[i].0 == *k {
                proof {
                    let p = self.pos(*k);
                    assert(self.has(*k));
                    assert(self.entries@[p].0 == *k);
                    if p != i as int {
                        assert(self.entries@[p].0 != self.entries@[i as int].0);
                    }
                }
                return Some(i);
            }
            i = i + 1;
        }
        None
    }

    /// The keys in insertion order are exactly the keys of the map, each
    /// once.
    pub proof fn lemma_key_order(&self)
        requires
            self.wf(),
        ensures
            self.key_order().no_duplicates(),
            forall|a: Address| #[trigger] self.key_order().contains(a) <==> self@.contains_key(a),
    {
        assert forall|a: Address| #[trigger] self.key_order().contains(a) <==> self@.contains_key(a) by {
            if self@.contains_key(a) {
                let p = self.pos(a);
                assert(self.key_order()[p] == a);
            }
            if self.key_order().contains(a) {
                let p = choose|p: int| 0 <= p < self.key_order().len() && self.key_order()[p] == a;
                assert(self.entries@[p].0 == a);
            }
        }
    }

    /// Number of keys.
    pub fn len(&self) -> (n: usize)
        ensures
            n == self.key_order().len(),
    {
        self.entries.len()
    }

    /// The value stored under the `i`-th key in insertion order.
    pub fn value_at(&self, i: usize) -> (r: &V)
        requires
            self.wf(),
            i < self.key_order().len(),
        ensures
            self@.contains_key(self.key_order()[i as int]),
            *r == self@[self.key_order()[i as int]],
    {
        proof {
            let k = self.entries@[i as int].0;
            assert(self.key_order()[i as int] == k);
            assert(self.has(k));
            let p = self.pos(k);
            if p != i as int {
                assert(self.entries@[p].0 != self.entries@[i as int].0);
            }
        }
        &self.entries[i].1
    }

    /// The value stored under `k`, if any.
    pub fn get(&self, k: &Address) -> (r: Option<&V>)
        requires
            self.wf(),
        ensures
            r == if self@.contains_key(*k) {
                Some(&self@[*k])
            } else {
                None::<&V>
            },
    {
        match self.index_of(k) {
            Some(i) => Some(&self.entries[i].1),
            None => None,
        }
    }

    /// Store `v` under `k`, replacing any previous value.
    pub fn set(&mut self, k: Address, v: V)
        requires
            old(self).wf(),
        ensures
            final(self).wf(),
            final(self)@ == old(self)@.insert(k, v),
            final(self).key_order() == if old(self)@.contains_key(k) {
                old(self).key_order()
            } else {
                old(self).key_order().push(k)
            },
    {
        match self.index_of(&k) {
            Some(i) => {
                let ghost before = self.entries@;
                self.entries.set(i, (k, v));
                proof {
                    assert forall|a: Address| #[trigger] self.has(a) == old(self).has(a) by {
                        if old(self).has(a) {
                            let p = old(self).pos(a);
                            assert(self.entries@[p].0 == a);
                        }
                        if self.has(a) {
                            let p = self.pos(a);
                            assert(before[p].0 == a);
                        }
                    }
                    assert forall|a: Address| old(self).has(a) && a != k implies self.pos(a)
                        == old(self).pos(a) by {
                        let p = self.pos(a);
                        let q = old(self).pos(a);
                        assert(self.entries@[q].0 == a);
                    }
                    assert(self@ =~= old(self)@.insert(k, v));
                    assert(self.key_order() =~= old(self).key_order());
                }
            },
            None => {
                let ghost before = self.entries@;
                self.entries.push((k, v));
                proof {
                    let n = before.len() as int;
                    assert(self.entries@[n].0 == k);
                    assert forall|a: Address| #[trigger] self.has(a) == (old(self).has(a) || a == k) by {
                        if old(self).has(a) {
                            let p = old(self).pos(a);
                            assert(self.entries@[p].0 == a);
                        }
                        if self.has(a) && a != k {
                            let p = self.pos(a);
                            assert(p != n);
                            assert(before[p].0 == a);
                        }
                    }
                    assert(self.pos(k) == n);
                    assert forall|a: Address| old(self).has(a) implies self.pos(a) == old(self).pos(a) by {
                        let p = self.pos(a);
                        let q = old(self).pos(a);
                        assert(self.entries@[q].0 == a);
                    }
                    assert(self@ =~= old(self)@.insert(k, v));
                    assert(self.key_order() =~= old(self).key_order().push(k));
                }
            },
        }
    }
}

} // verus!
