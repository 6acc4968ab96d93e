//! Paged index of bounty ids.
//!
//! Large lists of ids are sharded into pages of at most [`PAGE_SIZE`] entries
//! (one storage entry each) with a companion item count. Page `p` holds the
//! items at positions `50 * p .. 50 * p + 49` of the list; a page that is not
//! stored reads as empty, and a page written empty is deleted. Appending goes
//! to the last page (starting a new page when it is full); removing swaps the
//! very last item of the list into the removed slot and shrinks the last page.
use vstd::prelude::*;
use crate::contract::types::BountyId;

verus! {

/// Maximum number of ids in one page.
pub const PAGE_SIZE: u32 = 50;

/// Number of items page `p` holds when the list has `count` items.
pub open spec fn page_len(count: int, p: int) -> int {
    if count >= 50 * (p + 1) {
        50
    } else if count > 50 * p {
        count - 50 * p
    } else {
        0
    }
}

/// The list with position `j` filled by its last item, then shortened by one.
pub open spec fn swap_remove(s: Seq<BountyId>, j: int) -> Seq<BountyId> {
    s.update(j, s.last()).drop_last()
}

/// The first position of `x` in `s` (meaningful when `s` contains `x`).
pub open spec fn first_index(s: Seq<BountyId>, x: BountyId) -> int {
    choose|j: int| 0 <= j < s.len() && s[j] == x && forall|k: int| 0 <= k < j ==> s[k] != x
}

pub proof fn lemma_first_index(s: Seq<BountyId>, x: BountyId)
    requires
        s.contains(x),
    ensures
        0 <= first_index(s, x) < s.len(),
        s[first_index(s, x)] == x,
        forall|k: int| 0 <= k < first_index(s, x) ==> s[k] != x,
    decreases s.len(),
{
    let j = choose|j: int| 0 <= j < s.len() && s[j] == x;
    lemma_least_witness(s, x, j);
}

proof fn lemma_least_witness(s: Seq<BountyId>, x: BountyId, j: int)
    requires
        0 <= j < s.len(),
        s[j] == x,
    ensures
        exists|i: int| 0 <= i < s.len() && s[i] == x && forall|k: int| 0 <= k < i ==> s[k] != x,
    decreases j,
{
    if exists|k: int| 0 <= k < j && s[k] == x {
        let k = choose|k: int| 0 <= k < j && s[k] == x;
        lemma_least_witness(s, x, k);
    } else {
        assert(forall|k: int| 0 <= k < j ==> s[k] != x);
    }
}

/// Removing the only occurrence of `x` from a list without duplicates keeps
/// every other item and keeps the list free of duplicates.
pub proof fn lemma_swap_remove_membership(s: Seq<BountyId>, x: BountyId)
    requires
        s.no_duplicates(),
        s.contains(x),
    ensures
        swap_remove(s, first_index(s, x)).no_duplicates(),
        swap_remove(s, first_index(s, x)).len() == s.len() - 1,
        forall|y: BountyId| #[trigger]
            swap_remove(s, first_index(s, x)).contains(y) <==> (s.contains(y) && y != x),
{
    lemma_first_index(s, x);
    let j = first_index(s, x);
    let r = swap_remove(s, j);
    let last = s.len() - 1;
    assert forall|y: BountyId| r.contains(y) <==> (s.contains(y) && y != x) by {
        if r.contains(y) {
            let i = choose|i: int| 0 <= i < r.len() && r[i] == y;
            if i == j {
                assert(y == s[last]);
                assert(s[last] != s[j]);
            } else {
                assert(y == s[i]);
                assert(i != j);
            }
        }
        if s.contains(y) && y != x {
            let i = choose|i: int| 0 <= i < s.len() && s[i] == y;
            assert(i != j);
            if i == last {
                assert(r[j] == y);
            } else {
                assert(r[i] == y);
            }
        }
    }
    assert forall|a: int, b: int| 0 <= a < r.len() && 0 <= b < r.len() && a != b implies r[a]
        != r[b] by {
        if a == j {
            assert(r[a] == s[last]);
            assert(r[b] == s[b]);
        } else if b == j {
            assert(r[b] == s[last]);
            assert(r[a] == s[a]);
        } else {
            assert(r[a] == s[a] && r[b] == s[b]);
        }
    }
}

/// The position of the first occurrence of `id` in `page`.
fn position_in(page: &Vec<BountyId>, id: &BountyId) -> (r: Option<u32>)
    requires
        page@.len() <= 50,
    ensures
        r is None <==> !page@.contains(*id),
        r matches Some(i) ==> {
            &&& (i as int) < page@.len()
            &&& page@[i as int] == *id
            &&& forall|k: int| 0 <= k < i ==> page@[k] != *id
        },
{
    let mut i: usize = 0;
    while i < page.len()
        invariant
            i <= page@.len() <= 50,
            forall|k: int| 0 <= k < i ==> page@[k] != *id,
        decreases page@.len() - i,
    {
        if page[i] == *id {
            return Some(i as u32);
        }
        i = i + 1;
    }
    None
}

/// A copy of a list of ids.
pub fn copy_ids(v: &Vec<BountyId>) -> (r: Vec<BountyId>)
    ensures
        r@ == v@,
{
    let mut r: Vec<BountyId> = Vec::new();
    let mut i: usize = 0;
    while i < v.len()
        invariant
            i <= v@.len(),
            r@ == v@.take(i as int),
        decreases v@.len() - i,
    {
        r.push(v[i]);
        i = i + 1;
        assert(r@ =~= v@.take(i as int));
    }
    assert(r@ =~= v@);
    r
}

/// A copy of `v` without its last item.
fn without_last(v: &Vec<BountyId>) -> (r: Vec<BountyId>)
    requires
        v@.len() > 0,
    ensures
        r@ == v@.drop_last(),
{
    let mut r: Vec<BountyId> = Vec::new();
    let mut i: usize = 0;
    while i < v.len() - 1
        invariant
            v@.len() > 0,
            i <= v@.len() - 1,
            r@ == v@.take(i as int),
        decreases v@.len() - 1 - i,
    {
        r.push(v[i]);
        i = i + 1;
        assert(r@ =~= v@.take(i as int));
    }
    assert(r@ =~= v@.drop_last());
    r
}

/// A copy of `v` with position `pos` holding `x`.
fn with_replaced(v: &Vec<BountyId>, pos: usize, x: BountyId) -> (r: Vec<BountyId>)
    requires
        pos < v@.len(),
    ensures
        r@ == v@.update(pos as int, x),
{
    let mut r: Vec<BountyId> = Vec::new();
    let mut i: usize = 0;
    while i < v.len()
        invariant
            pos < v@.len(),
            i <= v@.len(),
            r@ == v@.update(pos as int, x).take(i as int),
        decreases v@.len() - i,
    {
        if i == pos {
            r.push(x);
        } else {
            r.push(v[i]);
        }
        i = i + 1;
        assert(r@ =~= v@.update(pos as int, x).take(i as int));
    }
    assert(r@ =~= v@.update(pos as int, x));
    r
}

/// A list of bounty ids stored as numbered pages plus an item count.
pub struct PagedIndex {
    count: u32,
    pages: Vec<Vec<BountyId>>,
}

impl View for PagedIndex {
    type V = Seq<BountyId>;

    /// The list of ids, in order across the pages.
    closed spec fn view(&self) -> Seq<BountyId> {
        Seq::new(self.count as nat, |k: int| self.item(k))
    }
}

impl PagedIndex {
    /// The ids stored in page `p` (empty when the page is not stored).
    pub closed spec fn page_at(&self, p: int) -> Seq<BountyId> {
        if 0 <= p < self.pages@.len() {
            self.pages@[p]@
        } else {
            Seq::empty()
        }
    }

    /// The list never holds more ids than its `u32` count can number.
    pub proof fn lemma_len_fits(&self)
        ensures
            self@.len() <= u32::MAX,
    {
    }

    closed spec fn item(&self, k: int) -> BountyId {
        self.page_at(k / 50)[k % 50]
    }

    /// The item count matches the pages, every page but the last is full, and
    /// no page past the last holds anything.
    pub closed spec fn wf(&self) -> bool {
        forall|p: int| 0 <= p ==> #[trigger] self.page_at(p).len() == page_len(self.count as int, p)
    }

    proof fn lemma_position(count: int, k: int)
        requires
            0 <= k < count,
        ensures
            0 <= k % 50 < page_len(count, k / 50),
            k == 50 * (k / 50) + k % 50,
    {
    }

    pub fn new() -> (r: PagedIndex)
        ensures
            r.wf(),
            r@ == Seq::<BountyId>::empty(),
    {
        let r = PagedIndex { count: 0, pages: Vec::new() };
        assert(r@ =~= Seq::<BountyId>::empty());
        r
    }

    /// The total number of items (not pages).
    pub fn count(&self) -> (c: u32)
        requires
            self.wf(),
        ensures
            c == self@.len(),
    {
        self.count
    }

    /// The number of stored pages.
    pub fn page_count(&self) -> (n: u32)
        ensures
            n as int == (self@.len() + 49) / 50,
    {
        if self.count == 0 {
            0
        } else {
            (self.count - 1) / PAGE_SIZE + 1
        }
    }

    /// A copy of page `p` (empty when `p` is past the last page).
    pub fn page(&self, p: u32) -> (r: Vec<BountyId>)
        ensures
            r@ == self.page_at(p as int),
    {
        let mut r: Vec<BountyId> = Vec::new();
        if (p as usize) < self.pages.len() {
            let page = &self.pages[p as usize];
            let mut i: usize = 0;
            while i < page.len()
                invariant
                    i <= page@.len(),
                    r@ == page@.take(i as int),
                decreases page@.len() - i,
            {
                r.push(page[i]);
                i = i + 1;
                assert(r@ =~= page@.take(i as int));
            }
            assert(page@.take(page@.len() as int) =~= page@);
        }
        r
    }

    /// Page `p` of the list, in terms of the list itself.
    pub proof fn lemma_page_of_list(&self, p: int)
        requires
            self.wf(),
            0 <= p,
        ensures
            self.page_at(p) == self@.subrange(
                if 50 * p <= self@.len() { 50 * p } else { self@.len() as int },
                if 50 * (p + 1) <= self@.len() { 50 * (p + 1) } else { self@.len() as int },
            ),
    {
        let lo = if 50 * p <= self@.len() { 50 * p } else { self@.len() as int };
        let hi = if 50 * (p + 1) <= self@.len() { 50 * (p + 1) } else { self@.len() as int };
        assert(self.page_at(p).len() == page_len(self.count as int, p));
        assert forall|i: int| 0 <= i < self.page_at(p).len() implies self.page_at(p)[i]
            == self@[lo + i] by {
            let k = 50 * p + i;
            assert(k / 50 == p && k % 50 == i);
        }
        assert(self.page_at(p) =~= self@.subrange(lo, hi));
    }

    /// Store `items` as page `p`; an empty page is deleted.
    fn set_page(&mut self, p: u32, items: Vec<BountyId>)
        ensures
            final(self).count == old(self).count,
            forall|q: int| #[trigger]
                final(self).page_at(q) == if q == p as int {
                    items@
                } else {
                    old(self).page_at(q)
                },
    {
        if items.len() == 0 {
            assert(items@ =~= Seq::<BountyId>::empty());
            if (p as usize) < self.pages.len() {
                self.pages.set(p as usize, items);
            }
            assert forall|q: int| #[trigger]
                self.page_at(q) == if q == p as int {
                    items@
                } else {
                    old(self).page_at(q)
                } by {
                if q == p as int {
                    assert(self.page_at(q) =~= items@);
                }
            }
        } else {
            while self.pages.len() <= p as usize
                invariant
                    self.count == old(self).count,
                    forall|q: int| #[trigger] self.page_at(q) == old(self).page_at(q),
                decreases p as int + 1 - self.pages@.len(),
            {
                let ghost before = *self;
                let empty: Vec<BountyId> = Vec::new();
                self.pages.push(empty);
                assert forall|q: int| #[trigger] self.page_at(q) == old(self).page_at(q) by {
                    assert(self.page_at(q) == before.page_at(q));
                }
            }
            let ghost mid = *self;
            self.pages.set(p as usize, items);
            assert forall|q: int| #[trigger]
                self.page_at(q) == if q == p as int {
                    items@
                } else {
                    old(self).page_at(q)
                } by {
                if q != p as int {
                    assert(self.page_at(q) == mid.page_at(q));
                }
            }
        }
    }

    /// The whole list, gathered page by page.
    pub fn to_vec(&self) -> (r: Vec<BountyId>)
        requires
            self.wf(),
        ensures
            r@ == self@,
    {
        let total = self.count;
        let mut result: Vec<BountyId> = Vec::new();
        if total == 0 {
            assert(result@ =~= self@);
            return result;
        }
        let pages = (total - 1) / PAGE_SIZE + 1;
        let mut i: u32 = 0;
        while i < pages
            invariant
                self.wf(),
                total == self.count,
                pages as int == (total as int - 1) / 50 + 1,
                0 < total,
                i <= pages,
                result@.len() == if 50 * i <= total { 50 * i } else { total as int },
                forall|k: int| 0 <= k < result@.len() ==> result@[k] == self@[k],
            decreases pages - i,
        {
            let page = self.page(i);
            proof {
                self.lemma_page_of_list(i as int);
            }
            let mut j: usize = 0;
            let ghost base = result@.len();
            assert(base == 50 * i);
            while j < page.len()
                invariant
                    j <= page@.len(),
                    base == 50 * i,
                    50 * i < self@.len(),
                    result@.len() == base + j,
                    page@ == self@.subrange(
                        50 * i as int,
                        if 50 * (i + 1) <= self@.len() { 50 * (i + 1) } else { self@.len() as int },
                    ),
                    forall|k: int| 0 <= k < result@.len() ==> result@[k] == self@[k],
                decreases page@.len() - j,
            {
                assert(page@[j as int] == self@[50 * i + j]);
                result.push(page[j]);
                j = j + 1;
            }
            i = i + 1;
        }
        assert(result@ =~= self@);
        result
    }

    /// Whether the list holds `id`.
    pub fn contains(&self, id: &BountyId) -> (b: bool)
        requires
            self.wf(),
        ensures
            b == self@.contains(*id),
    {
        match self.find(id) {
            Some(_) => true,
            None => false,
        }
    }

    /// The page and in-page position of the first occurrence of `id`.
    pub fn find(&self, id: &BountyId) -> (r: Option<(u32, u32)>)
        requires
            self.wf(),
        ensures
            r is None <==> !self@.contains(*id),
            r matches Some((p, pos)) ==> {
                &&& self@.contains(*id)
                &&& (50 * p + pos) as int == first_index(self@, *id)
                &&& (pos as int) < page_len(self@.len() as int, p as int)
            },
    {
        let total = self.count;
        if total == 0 {
            return None;
        }
        let page_count = (total - 1) / PAGE_SIZE + 1;
        let mut p: u32 = 0;
        while p < page_count
            invariant
                self.wf(),
                total == self.count,
                0 < total,
                page_count as int == (total as int - 1) / 50 + 1,
                p <= page_count,
                forall|k: int| 0 <= k < 50 * p && k < total ==> self@[k] != *id,
            decreases page_count - p,
        {
            let page = self.page(p);
            proof {
                self.lemma_page_of_list(p as int);
            }
            match position_in(&page, id) {
                Some(pos) => {
                    proof {
                        let j = 50 * p + pos;
                        assert(self@[j as int] == *id);
                        lemma_first_index(self@, *id);
                        let f = first_index(self@, *id);
                        assert(f == j as int);
                    }
                    return Some((p, pos));
                },
                None => {
                    assert forall|k: int| 0 <= k < 50 * (p + 1) && k < total implies self@[k]
                        != *id by {
                        if k >= 50 * p {
                            assert(page@[k - 50 * p] == self@[k]);
                        }
                    }
                },
            }
            p = p + 1;
        }
        assert(!self@.contains(*id));
        None
    }

    /// Append `id` at the end of the list (no duplicate check).
    pub fn append(&mut self, id: BountyId)
        requires
            old(self).wf(),
            old(self)@.len() < u32::MAX,
        ensures
            final(self).wf(),
            final(self)@ == old(self)@.push(id),
    {
        let total = self.count;
        // A full last page starts a new one.
        let target: u32 = if total > 0 && total % PAGE_SIZE == 0 {
            total / PAGE_SIZE
        } else if total == 0 {
            0
        } else {
            (total - 1) / PAGE_SIZE
        };
        assert(target as int == total as int / 50);
        let mut page = self.page(target);
        page.push(id);
        let ghost before = *self;
        let ghost new_page = page@;
        assert(new_page == before.page_at(target as int).push(id));
        self.set_page(target, page);
        let ghost after_set = *self;
        self.count = total + 1;
        proof {
            let t = target as int;
            assert forall|q: int| #[trigger] self.page_at(q) == if q == t {
                new_page
            } else {
                before.page_at(q)
            } by {
                assert(self.page_at(q) == after_set.page_at(q));
            }
            assert(total as int == 50 * t + total as int % 50);
            assert(0 <= total as int % 50 < 50);
            assert(before.page_at(t).len() == page_len(total as int, t));
            assert forall|q: int| 0 <= q implies #[trigger] self.page_at(q).len() == page_len(
                self.count as int,
                q,
            ) by {
                assert(before.page_at(q).len() == page_len(total as int, q));
                if q == t {
                    assert(self.page_at(q) == new_page);
                } else if q < t {
                    assert(50 * (q + 1) <= 50 * t);
                } else {
                    assert(50 * q >= 50 * (t + 1));
                }
            }
            assert forall|k: int| 0 <= k < self.count implies self.item(k) == old(self)@.push(
                id,
            )[k] by {
                PagedIndex::lemma_position(self.count as int, k);
                if k < total {
                    PagedIndex::lemma_position(total as int, k);
                    assert(before.page_at(k / 50).len() == page_len(total as int, k / 50));
                    if k / 50 == t {
                        assert(self.page_at(t) == new_page);
                        assert(self.item(k) == before.item(k));
                    } else {
                        assert(self.page_at(k / 50) == before.page_at(k / 50));
                    }
                    assert(self.item(k) == before.item(k));
                } else {
                    assert(k == total);
                    assert(k / 50 == t && k % 50 == total as int % 50);
                    assert(self.page_at(t) == new_page);
                }
            }
            assert(self@ =~= old(self)@.push(id));
        }
    }

    /// Append `id` unless the list already holds it.
    pub fn insert_unique(&mut self, id: BountyId)
        requires
            old(self).wf(),
            old(self)@.len() < u32::MAX,
        ensures
            final(self).wf(),
            final(self)@ == if old(self)@.contains(id) {
                old(self)@
            } else {
                old(self)@.push(id)
            },
    {
        let total = self.count;
        if total > 0 {
            // Appends always go to the last page, so look there first.
            let last_page_idx = (total - 1) / PAGE_SIZE;
            let last_page = self.page(last_page_idx);
            proof {
                self.lemma_page_of_list(last_page_idx as int);
            }
            if position_in(&last_page, &id).is_some() {
                return;
            }
            // Then every earlier page.
            let mut p: u32 = 0;
            while p < last_page_idx
                invariant
                    self.wf(),
                    total == self.count,
                    0 < total,
                    last_page_idx as int == (total as int - 1) / 50,
                    p <= last_page_idx,
                    forall|k: int| 0 <= k < 50 * p ==> self@[k] != id,
                    forall|k: int| 50 * last_page_idx <= k < total ==> self@[k] != id,
                decreases last_page_idx - p,
            {
                let pg = self.page(p);
                proof {
                    self.lemma_page_of_list(p as int);
                }
                if position_in(&pg, &id).is_some() {
                    return;
                }
                p = p + 1;
            }
            assert(!self@.contains(id));
        }
        self.append(id);
    }

    /// Remove the first occurrence of `id`: the very last item of the list
    /// takes its slot and the last page shrinks by one (a page left empty is
    /// deleted). Nothing changes when `id` is absent.
    pub fn remove_first(&mut self, id: &BountyId)
        requires
            old(self).wf(),
        ensures
            final(self).wf(),
            final(self)@ == if old(self)@.contains(*id) {
                swap_remove(old(self)@, first_index(old(self)@, *id))
            } else {
                old(self)@
            },
    {
        let total = self.count;
        if total == 0 {
            return;
        }
        let page_count = (total - 1) / PAGE_SIZE + 1;
        let (fp, fpos) = match self.find(id) {
            Some(found) => found,
            None => {
                return;
            },
        };
        let ghost s = old(self)@;
        let ghost j = 50 * fp + fpos;
        let ghost last = total as int - 1;
        let last_page_idx = page_count - 1;
        let last_page = self.page(last_page_idx);
        proof {
            self.lemma_page_of_list(last_page_idx as int);
            PagedIndex::lemma_position(total as int, last);
            assert(last / 50 == last_page_idx as int);
            assert(last_page@.len() == last % 50 + 1);
        }
        let last_item = last_page[last_page.len() - 1];
        assert(last_item == s[last]);
        if fp == last_page_idx && fpos as usize == last_page.len() - 1 {
            // Removing the very last item: just shrink the last page.
            let trimmed = without_last(&last_page);
            self.set_page(last_page_idx, trimmed);
            let ghost after_set = *self;
            self.count = total - 1;
            proof {
                assert(j == last);
                self.lemma_after_remove(old(self), after_set, last_page_idx as int, trimmed@,
                    last_page_idx as int, trimmed@, j);
            }
        } else {
            // Put the last item into the found slot, then shrink the last page.
            let target_page = self.page(fp);
            let new_target = with_replaced(&target_page, fpos as usize, last_item);
            let ghost target_view = new_target@;
            self.set_page(fp, new_target);
            // Re-read: the found slot may sit on the last page itself.
            let last_page_now = self.page(last_page_idx);
            let trimmed = without_last(&last_page_now);
            self.set_page(last_page_idx, trimmed);
            let ghost after_set = *self;
            self.count = total - 1;
            proof {
                self.lemma_after_remove(old(self), after_set, fp as int, target_view,
                    last_page_idx as int, trimmed@, j);
            }
        }
    }

    proof fn lemma_after_remove(
        &self,
        old_index: &PagedIndex,
        after_set: PagedIndex,
        fp: int,
        target_view: Seq<BountyId>,
        lp: int,
        trimmed: Seq<BountyId>,
        j: int,
    )
        requires
            old_index.wf(),
            old_index.count > 0,
            self.count == old_index.count - 1,
            self.pages == after_set.pages,
            0 <= j < old_index.count,
            fp == j / 50,
            lp == (old_index.count - 1) / 50,
            j == old_index.count - 1 ==> fp == lp && trimmed == old_index.page_at(lp).drop_last(),
            j != old_index.count - 1 ==> {
                &&& target_view == old_index.page_at(fp).update(j % 50, old_index@.last())
                &&& trimmed == (if fp == lp { target_view } else { old_index.page_at(lp) }).drop_last()
            },
            forall|q: int| #[trigger] after_set.page_at(q) == if q == lp {
                trimmed
            } else if q == fp {
                target_view
            } else {
                old_index.page_at(q)
            },
        ensures
            self.wf(),
            self@ == swap_remove(old_index@, j),
    {
        let c = old_index.count as int;
        let s = old_index@;
        assert forall|q: int| #[trigger] self.page_at(q) == after_set.page_at(q) by {}
        PagedIndex::lemma_position(c, c - 1);
        PagedIndex::lemma_position(c, j);
        assert(old_index.page_at(lp).len() == page_len(c, lp));
        assert(old_index.page_at(fp).len() == page_len(c, fp));
        assert(c - 1 == 50 * lp + (c - 1) % 50);
        assert forall|q: int| 0 <= q implies #[trigger] self.page_at(q).len() == page_len(
            self.count as int,
            q,
        ) by {
            assert(old_index.page_at(q).len() == page_len(c, q));
            if q == lp {
            } else if q < lp {
                assert(50 * (q + 1) <= 50 * lp);
            } else {
                assert(50 * q >= 50 * (lp + 1));
            }
        }
        assert forall|k: int| 0 <= k < c - 1 implies #[trigger] self.item(k) == swap_remove(s, j)[k] by {
            PagedIndex::lemma_position(c, k);
            PagedIndex::lemma_position(c - 1, k);
            assert(old_index.page_at(k / 50).len() == page_len(c, k / 50));
            if k == j {
                assert(self.item(k) == s[c - 1]);
            } else {
                assert(self.item(k) == old_index.item(k));
            }
        }
        assert(self@ =~= swap_remove(s, j));
    }
}

} // verus!
