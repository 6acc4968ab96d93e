//! Ranking of contributors by reputation, best first; contributors of equal
//! reputation keep their order.
use vstd::prelude::*;
use crate::contract::types::Contributor;

verus! {

/// `sorted` (best first) with `x` placed after every contributor whose
/// reputation is at least its own.
pub open spec fn insert_by_reputation(sorted: Seq<Contributor>, x: Contributor) -> Seq<Contributor>
    decreases sorted.len(),
{
    if sorted.len() == 0 {
        seq![x]
    } else if sorted[0].reputation < x.reputation {
        seq![x] + sorted
    } else {
        seq![sorted[0]] + insert_by_reputation(sorted.drop_first(), x)
    }
}

/// `cs` ranked by reputation, best first; equal reputations keep their
/// order.
pub open spec fn by_reputation(cs: Seq<Contributor>) -> Seq<Contributor>
    decreases cs.len(),
{
    if cs.len() == 0 {
        cs
    } else {
        insert_by_reputation(by_reputation(cs.drop_last()), cs.last())
    }
}

/// Whether `s` is ranked by reputation, best first.
pub open spec fn is_ranked(s: Seq<Contributor>) -> bool {
    forall|i: int, j: int|
        0 <= i < j < s.len() ==> #[trigger] s[j].reputation <= #[trigger] s[i].reputation
}

/// An exact copy of `c`.
pub fn copy_contributor(c: &Contributor) -> (r: Contributor)
    ensures
        r == *c,
{
    let metadata = match &c.metadata {
        Some(m) => Some(m.clone()),
        None => None,
    };
    Contributor {
        address: c.address,
        reputation: c.reputation,
        total_earned: c.total_earned,
        contribution_count: c.contribution_count,
        active_claims: c.active_claims,
        metadata,
    }
}

fn rank_position(sorted: &Vec<Contributor>, x: &Contributor) -> (p: usize)
    ensures
        p <= sorted@.len(),
        forall|k: int| 0 <= k < p ==> x.reputation <= #[trigger] sorted@[k].reputation,
        p < sorted@.len() ==> sorted@[p as int].reputation < x.reputation,
{
    let mut p: usize = 0;
    while p < sorted.len()
        invariant
            p <= sorted@.len(),
            forall|k: int| 0 <= k < p ==> x.reputation <= #[trigger] sorted@[k].reputation,
        decreases sorted@.len() - p,
    {
        if sorted[p].reputation < x.reputation {
            return p;
        }
        p = p + 1;
    }
    p
}

proof fn lemma_insert_at(sorted: Seq<Contributor>, x: Contributor, p: int)
    requires
        0 <= p <= sorted.len(),
        forall|k: int| 0 <= k < p ==> x.reputation <= #[trigger] sorted[k].reputation,
        p < sorted.len() ==> sorted[p].reputation < x.reputation,
    ensures
        insert_by_reputation(sorted, x) == sorted.insert(p, x),
    decreases sorted.len(),
{
    if sorted.len() == 0 {
        assert(sorted.insert(p, x) =~= seq![x]);
    } else if p == 0 {
        assert(sorted.insert(p, x) =~= seq![x] + sorted);
    } else {
        let rest = sorted.drop_first();
        assert forall|k: int| 0 <= k < p - 1 implies x.reputation <= #[trigger] rest[k].reputation by {
            assert(rest[k] == sorted[k + 1]);
        }
        if p - 1 < rest.len() {
            assert(rest[p - 1] == sorted[p]);
        }
        lemma_insert_at(rest, x, p - 1);
        assert(seq![sorted[0]] + rest.insert(p - 1, x) =~= sorted.insert(p, x));
    }
}

/// `profiles` ranked by reputation, best first; equal reputations keep
/// their order.
pub fn rank_by_reputation(profiles: Vec<Contributor>) -> (r: Vec<Contributor>)
    ensures
        r@ == by_reputation(profiles@),
{
    let mut sorted: Vec<Contributor> = Vec::new();
    let mut rest = profiles;
    let ghost all = rest@;
    let mut taken: Vec<Contributor> = Vec::new();
    while rest.len() > 0
        invariant
            all.len() == taken@.len() + rest@.len(),
            forall|k: int| 0 <= k < rest@.len() ==> #[trigger] rest@[k] == all[k],
            forall|k: int| 0 <= k < taken@.len() ==> #[trigger] taken@[k] == all[all.len() - 1 - k],
        decreases rest@.len(),
    {
        let x = rest.pop().unwrap();
        taken.push(x);
    }
    let total = taken.len();
    let mut i: usize = 0;
    while taken.len() > 0
        invariant
            i + taken@.len() == all.len(),
            all.len() == total,
            forall|k: int| 0 <= k < taken@.len() ==> #[trigger] taken@[k] == all[all.len() - 1 - k],
            sorted@ == by_reputation(all.take(i as int)),
        decreases taken@.len(),
    {
        let x = taken.pop().unwrap();
        proof {
            assert(x == all[i as int]);
        }
        let p = rank_position(&sorted, &x);
        proof {
            lemma_insert_at(sorted@, x, p as int);
            let prefix = all.take(i as int + 1);
            assert(prefix.drop_last() =~= all.take(i as int));
            assert(prefix.last() == x);
        }
        sorted.insert(p, x);
        i = i + 1;
    }
    proof {
        assert(all.take(i as int) =~= all);
    }
    sorted
}

proof fn lemma_insert_by_reputation(sorted: Seq<Contributor>, x: Contributor)
    requires
        is_ranked(sorted),
    ensures
        is_ranked(insert_by_reputation(sorted, x)),
        insert_by_reputation(sorted, x).to_multiset() == sorted.to_multiset().insert(x),
    decreases sorted.len(),
{
    broadcast use vstd::seq_lib::group_to_multiset_ensures;
    broadcast use vstd::seq_lib::lemma_multiset_commutative;

    let r = insert_by_reputation(sorted, x);
    if sorted.len() == 0 {
        assert(seq![x] =~= Seq::<Contributor>::empty().push(x));
        assert(r.to_multiset() =~= sorted.to_multiset().insert(x));
    } else if sorted[0].reputation < x.reputation {
        assert(seq![x] =~= Seq::<Contributor>::empty().push(x));
        assert(r.to_multiset() =~= sorted.to_multiset().insert(x));
        assert forall|i: int, j: int| 0 <= i < j < r.len() implies #[trigger] r[j].reputation
            <= #[trigger] r[i].reputation by {
            assert(r[j] == sorted[j - 1]);
            if i > 0 {
                assert(r[i] == sorted[i - 1]);
            } else if j - 1 > 0 {
                assert(sorted[j - 1].reputation <= sorted[0].reputation);
            }
        }
    } else {
        let rest = sorted.drop_first();
        assert(sorted =~= seq![sorted[0]] + rest);
        assert forall|i: int, j: int| 0 <= i < j < rest.len() implies #[trigger] rest[j].reputation
            <= #[trigger] rest[i].reputation by {
            assert(rest[i] == sorted[i + 1]);
            assert(rest[j] == sorted[j + 1]);
        }
        lemma_insert_by_reputation(rest, x);
        let t = insert_by_reputation(rest, x);
        assert(r == seq![sorted[0]] + t);
        assert(seq![sorted[0]] =~= Seq::<Contributor>::empty().push(sorted[0]));
        assert(r.to_multiset() =~= sorted.to_multiset().insert(x));
        assert forall|i: int, j: int| 0 <= i < j < r.len() implies #[trigger] r[j].reputation
            <= #[trigger] r[i].reputation by {
            assert(r[j] == t[j - 1]);
            if i == 0 {
                let e = t[j - 1];
                assert(t.contains(e));
                assert(t.to_multiset().count(e) > 0);
                if e != x {
                    assert(rest.to_multiset().count(e) > 0);
                    assert(rest.contains(e));
                    let k = choose|k: int| 0 <= k < rest.len() && rest[k] == e;
                    assert(sorted[k + 1] == e);
                }
            } else {
                assert(r[i] == t[i - 1]);
            }
        }
    }
}

/// Ranking order: `by_reputation(cs)` is ranked best first and holds exactly
/// the contributors of `cs`.
pub proof fn lemma_by_reputation_ranks(cs: Seq<Contributor>)
    ensures
        is_ranked(by_reputation(cs)),
        by_reputation(cs).to_multiset() == cs.to_multiset(),
    decreases cs.len(),
{
    broadcast use vstd::seq_lib::group_to_multiset_ensures;

    if cs.len() > 0 {
        lemma_by_reputation_ranks(cs.drop_last());
        lemma_insert_by_reputation(by_reputation(cs.drop_last()), cs.last());
        assert(cs =~= cs.drop_last().push(cs.last()));
    }
}

} // verus!
