//! The backend's in-memory store: flat records, bounty listing rows, and the
//! idempotency-key store.
use vstd::prelude::*;
use std::sync::RwLock;
use crate::backend::store::StrMap;
use crate::contract::symbols::str_eq;

verus! {

#[verifier::external_type_specification]
#[verifier::external_body]
#[verifier::reject_recursive_types(T)]
pub struct ExRwLock<T: ?Sized>(RwLock<T>);

/// `std::sync::RwLock::new`: a lock holding `value`. What the lock holds
/// later changes through its guards, so nothing is stated of it here.
#[verifier::external_body]
pub(crate) fn new_lock<T>(value: T) -> RwLock<T> {
    RwLock::new(value)
}

/// A UTC instant: whole seconds since the Unix epoch and the nanoseconds
/// past that second (at or above one billion only inside a leap second).
#[derive(Copy, Clone, Debug, PartialEq, Eq, Structural)]
pub struct Timestamp {
    pub secs: i64,
    pub nanos: u32,
}

/// Whether instant `a` is strictly earlier than instant `b`.
pub open spec fn earlier(a: Timestamp, b: Timestamp) -> bool {
    a.secs < b.secs || (a.secs == b.secs && a.nanos < b.nanos)
}

/// Whether instant `a` is strictly earlier than instant `b`.
pub fn is_earlier(a: Timestamp, b: Timestamp) -> (r: bool)
    ensures
        r == earlier(a, b),
{
    a.secs < b.secs || (a.secs == b.secs && a.nanos < b.nanos)
}

/// A bounty row as exposed by the listing endpoints.
#[derive(Debug)]
pub struct Bounty {
    pub id: String,
    pub creator: String,
    pub assignee: Option<String>,
    pub created_at: Timestamp,
}

/// An exact copy of `b`.
pub fn copy_bounty(b: &Bounty) -> (r: Bounty)
    ensures
        r == *b,
{
    let assignee = match &b.assignee {
        Some(a) => Some(a.clone()),
        None => None,
    };
    Bounty { id: b.id.clone(), creator: b.creator.clone(), assignee, created_at: b.created_at }
}

/// One page of a cursor-paginated bounty listing. `next_cursor` is the
/// creation instant of the page's last row when more rows follow it.
#[derive(Debug)]
pub struct BountyPage {
    pub bounties: Vec<Bounty>,
    pub next_cursor: Option<Timestamp>,
}

/// The in-memory store: flat id-to-JSON records (dispute and self-claim
/// flows) and the bounty listing rows.
#[derive(Debug)]
pub struct DbStore {
    pub records: StrMap<String>,
    pub bounties: Vec<Bounty>,
}

impl DbStore {
    /// An empty store.
    pub fn new() -> (d: DbStore)
        ensures
            d.records@ == Map::<Seq<char>, String>::empty(),
            d.bounties@.len() == 0,
    {
        DbStore { records: StrMap::new(), bounties: Vec::new() }
    }
}

/// Schema migration for the database-backed store: indexes the bounty
/// columns the listings filter on (`assignee` for assignee listings,
/// `status` for status listings).
pub const BOUNTIES_INDEX_MIGRATION: &'static str = "CREATE INDEX IF NOT EXISTS idx_bounties_assignee ON bounties (assignee);\nCREATE INDEX IF NOT EXISTS idx_bounties_status ON bounties (status);\n";

// ---------------------------------------------------------------------------
// Bounty listing
// ---------------------------------------------------------------------------

/// Whether a row passes the creator filter (an empty creator matches every
/// row) and lies strictly before the cursor.
pub open spec fn creator_match(creator: Seq<char>, cursor: Option<Timestamp>, b: Bounty) -> bool {
    &&& (creator.len() == 0 || b.creator@ == creator)
    &&& (cursor matches Some(c) ==> earlier(b.created_at, c))
}

/// Whether a row's recorded assignee is `assignee` and it lies strictly
/// before the cursor.
pub open spec fn assignee_match(assignee: Seq<char>, cursor: Option<Timestamp>, b: Bounty) -> bool {
    &&& (b.assignee matches Some(a) && a@ == assignee)
    &&& (cursor matches Some(c) ==> earlier(b.created_at, c))
}

/// `sorted` (newest first) with `x` placed after every row at least as new
/// as it, keeping earlier-listed rows of the same instant first.
pub open spec fn insert_newest_first(sorted: Seq<Bounty>, x: Bounty) -> Seq<Bounty>
    decreases sorted.len(),
{
    if sorted.len() == 0 {
        seq![x]
    } else if earlier(sorted[0].created_at, x.created_at) {
        seq![x] + sorted
    } else {
        seq![sorted[0]] + insert_newest_first(sorted.drop_first(), x)
    }
}

/// `rows` sorted newest first; rows of the same instant keep their order.
pub open spec fn newest_first(rows: Seq<Bounty>) -> Seq<Bounty>
    decreases rows.len(),
{
    if rows.len() == 0 {
        rows
    } else {
        insert_newest_first(newest_first(rows.drop_last()), rows.last())
    }
}

/// Whether `s` is ordered newest first.
pub open spec fn is_newest_first(s: Seq<Bounty>) -> bool {
    forall|i: int, j: int|
        0 <= i < j < s.len() ==> !earlier(#[trigger] s[i].created_at, #[trigger] s[j].created_at)
}

proof fn lemma_insert_newest_first(sorted: Seq<Bounty>, x: Bounty)
    requires
        is_newest_first(sorted),
    ensures
        is_newest_first(insert_newest_first(sorted, x)),
        insert_newest_first(sorted, x).to_multiset() == sorted.to_multiset().insert(x),
    decreases sorted.len(),
{
    broadcast use vstd::seq_lib::group_to_multiset_ensures;
    broadcast use vstd::seq_lib::lemma_multiset_commutative;

    let r = insert_newest_first(sorted, x);
    if sorted.len() == 0 {
        assert(seq![x] =~= Seq::<Bounty>::empty().push(x));
        assert(r.to_multiset() =~= sorted.to_multiset().insert(x));
    } else if earlier(sorted[0].created_at, x.created_at) {
        assert(seq![x] =~= Seq::<Bounty>::empty().push(x));
        assert(r.to_multiset() =~= sorted.to_multiset().insert(x));
        assert forall|i: int, j: int| 0 <= i < j < r.len() implies !earlier(
            #[trigger] r[i].created_at,
            #[trigger] r[j].created_at,
        ) by {
            if i == 0 {
                assert(r[j] == sorted[j - 1]);
                if j - 1 > 0 {
                    assert(!earlier(sorted[0].created_at, sorted[j - 1].created_at));
                }
            } else {
                assert(r[i] == sorted[i - 1]);
                assert(r[j] == sorted[j - 1]);
            }
        }
    } else {
        let rest = sorted.drop_first();
        assert(sorted =~= seq![sorted[0]] + rest);
        assert forall|i: int, j: int| 0 <= i < j < rest.len() implies !earlier(
            #[trigger] rest[i].created_at,
            #[trigger] rest[j].created_at,
        ) by {
            assert(rest[i] == sorted[i + 1]);
            assert(rest[j] == sorted[j + 1]);
        }
        lemma_insert_newest_first(rest, x);
        let t = insert_newest_first(rest, x);
        assert(r == seq![sorted[0]] + t);
        assert(seq![sorted[0]] =~= Seq::<Bounty>::empty().push(sorted[0]));
        assert(r.to_multiset() =~= sorted.to_multiset().insert(x));
        assert forall|i: int, j: int| 0 <= i < j < r.len() implies !earlier(
            #[trigger] r[i].created_at,
            #[trigger] r[j].created_at,
        ) by {
            assert(r[j] == t[j - 1]);
            if i == 0 {
                let e = t[j - 1];
                assert(t.contains(e));
                assert(t.to_multiset().count(e) > 0);
                if e != x {
                    assert(rest.to_multiset().count(e) > 0);
                    assert(rest.contains(e));
                    let k = choose|k: int| 0 <= k < rest.len() && rest[k] == e;
                    assert(sorted[k + 1] == e);
                }
            } else {
                assert(r[i] == t[i - 1]);
            }
        }
    }
}

/// Listing order: `newest_first(rows)` is ordered newest first and holds
/// exactly the rows of `rows`.
pub proof fn lemma_newest_first_orders(rows: Seq<Bounty>)
    ensures
        is_newest_first(newest_first(rows)),
        newest_first(rows).to_multiset() == rows.to_multiset(),
    decreases rows.len(),
{
    broadcast use vstd::seq_lib::group_to_multiset_ensures;

    if rows.len() > 0 {
        lemma_newest_first_orders(rows.drop_last());
        lemma_insert_newest_first(newest_first(rows.drop_last()), rows.last());
        assert(rows =~= rows.drop_last().push(rows.last()));
    }
}

/// The page of `sorted` for `limit`: at most `limit` rows (none for a
/// negative limit), and the cursor of the last one when more follow.
pub open spec fn page_of(sorted: Seq<Bounty>, limit: i64) -> (Seq<Bounty>, Option<Timestamp>) {
    let n = if limit < 0 {
        0
    } else {
        limit as int
    };
    if sorted.len() > n {
        (sorted.take(n), if n > 0 {
            Some(sorted[n - 1].created_at)
        } else {
            None
        })
    } else {
        (sorted, None)
    }
}

/// Every row of a page of `rows` filtered by `pred`, sorted newest first,
/// satisfies `pred`.
proof fn lemma_page_rows_satisfy(rows: Seq<Bounty>, pred: spec_fn(Bounty) -> bool, limit: i64)
    ensures
        forall|k: int| 0 <= k < page_of(newest_first(rows.filter(pred)), limit).0.len() ==> pred(
            #[trigger] page_of(newest_first(rows.filter(pred)), limit).0[k],
        ),
{
    broadcast use vstd::seq_lib::group_to_multiset_ensures;

    let filtered = rows.filter(pred);
    let sorted = newest_first(filtered);
    let page = page_of(sorted, limit).0;
    lemma_newest_first_orders(filtered);
    assert forall|k: int| 0 <= k < page.len() implies pred(#[trigger] page[k]) by {
        assert(page.len() <= sorted.len());
        assert(page[k] == sorted[k]);
        assert(sorted.contains(sorted[k]));
        assert(sorted.to_multiset().count(sorted[k]) > 0);
        assert(filtered.to_multiset().count(sorted[k]) > 0);
        assert(filtered.contains(sorted[k]));
        let j = choose|j: int| 0 <= j < filtered.len() && filtered[j] == sorted[k];
        rows.lemma_filter_pred(pred, j);
    }
}

/// Paging by creator only moves back in time: every row of a page fetched
/// with cursor `c` was created strictly before `c`, so the pages reached by
/// following `next_cursor` never repeat a row; and every row is the
/// creator's (any row when the creator is empty).
pub proof fn law_creator_page_before_cursor(rows: Seq<Bounty>, creator: Seq<char>, limit: i64, cursor: Option<Timestamp>)
    ensures
        ({
            let page = page_of(newest_first(rows.filter(|b: Bounty| creator_match(creator, cursor, b))), limit).0;
            forall|k: int| 0 <= k < page.len() ==> {
                let r = #[trigger] page[k];
                &&& (creator.len() == 0 || r.creator@ == creator)
                &&& (cursor matches Some(c) ==> r.created_at.secs < c.secs || (r.created_at.secs == c.secs
                    && r.created_at.nanos < c.nanos))
            }
        }),
{
    lemma_page_rows_satisfy(rows, |b: Bounty| creator_match(creator, cursor, b), limit);
}

/// Paging by assignee only moves back in time: every row of a page fetched
/// with cursor `c` was created strictly before `c`, so the pages reached by
/// following `next_cursor` never repeat a row; and every row records
/// `assignee`.
pub proof fn law_assignee_page_before_cursor(rows: Seq<Bounty>, assignee: Seq<char>, limit: i64, cursor: Option<Timestamp>)
    ensures
        ({
            let page = page_of(newest_first(rows.filter(|b: Bounty| assignee_match(assignee, cursor, b))), limit).0;
            forall|k: int| 0 <= k < page.len() ==> {
                let r = #[trigger] page[k];
                &&& (r.assignee matches Some(a) && a@ == assignee)
                &&& (cursor matches Some(c) ==> r.created_at.secs < c.secs || (r.created_at.secs == c.secs
                    && r.created_at.nanos < c.nanos))
            }
        }),
{
    lemma_page_rows_satisfy(rows, |b: Bounty| assignee_match(assignee, cursor, b), limit);
}

/// Position at which `x` enters `sorted`: the first row strictly older.
fn insertion_point(sorted: &Vec<Bounty>, x: &Bounty) -> (p: usize)
    ensures
        p <= sorted@.len(),
        forall|k: int| 0 <= k < p ==> !earlier(#[trigger] sorted@[k].created_at, x.created_at),
        p < sorted@.len() ==> earlier(sorted@[p as int].created_at, x.created_at),
{
    let mut p: usize = 0;
    while p < sorted.len()
        invariant
            p <= sorted@.len(),
            forall|k: int| 0 <= k < p ==> !earlier(#[trigger] sorted@[k].created_at, x.created_at),
        decreases sorted@.len() - p,
    {
        if is_earlier(sorted[p].created_at, x.created_at) {
            return p;
        }
        p = p + 1;
    }
    p
}

proof fn lemma_insert_at(sorted: Seq<Bounty>, x: Bounty, p: int)
    requires
        0 <= p <= sorted.len(),
        forall|k: int| 0 <= k < p ==> !earlier(#[trigger] sorted[k].created_at, x.created_at),
        p < sorted.len() ==> earlier(sorted[p].created_at, x.created_at),
    ensures
        insert_newest_first(sorted, x) == sorted.insert(p, x),
    decreases sorted.len(),
{
    if sorted.len() == 0 {
        assert(sorted.insert(p, x) =~= seq![x]);
    } else if p == 0 {
        assert(sorted.insert(p, x) =~= seq![x] + sorted);
    } else {
        let rest = sorted.drop_first();
        assert forall|k: int| 0 <= k < p - 1 implies !earlier(
            #[trigger] rest[k].created_at,
            x.created_at,
        ) by {
            assert(rest[k] == sorted[k + 1]);
        }
        if p - 1 < rest.len() {
            assert(rest[p - 1] == sorted[p]);
        }
        lemma_insert_at(rest, x, p - 1);
        assert(!earlier(sorted[0].created_at, x.created_at));
        assert(seq![sorted[0]] + rest.insert(p - 1, x) =~= sorted.insert(p, x));
    }
}

/// `rows` sorted newest first, rows of the same instant in their input
/// order.
pub fn sort_newest_first(rows: Vec<Bounty>) -> (r: Vec<Bounty>)
    ensures
        r@ == newest_first(rows@),
{
    let mut sorted: Vec<Bounty> = Vec::new();
    let mut rest = rows;
    let ghost all = rest@;
    let mut taken: Vec<Bounty> = Vec::new();
    // rows are taken from the front; `newest_first` consumes from the back,
    // so the rows are first reversed into `taken`.
    while rest.len() > 0
        invariant
            all.len() == taken@.len() + rest@.len(),
            forall|k: int| 0 <= k < rest@.len() ==> #[trigger] rest@[k] == all[k],
            forall|k: int| 0 <= k < taken@.len() ==> #[trigger] taken@[k] == all[all.len() - 1 - k],
        decreases rest@.len(),
    {
        let x = rest.pop().unwrap();
        taken.push(x);
    }
    let total = taken.len();
    let mut i: usize = 0;
    while taken.len() > 0
        invariant
            i + taken@.len() == all.len(),
            all.len() == total,
            forall|k: int| 0 <= k < taken@.len() ==> #[trigger] taken@[k] == all[all.len() - 1 - k],
            sorted@ == newest_first(all.take(i as int)),
        decreases taken@.len(),
    {
        let x = taken.pop().unwrap();
        proof {
            assert(x == all[i as int]);
        }
        let p = insertion_point(&sorted, &x);
        proof {
            lemma_insert_at(sorted@, x, p as int);
            let prefix = all.take(i as int + 1);
            assert(prefix.drop_last() =~= all.take(i as int));
            assert(prefix.last() == x);
        }
        sorted.insert(p, x);
        i = i + 1;
    }
    proof {
        assert(all.take(i as int) =~= all);
    }
    sorted
}

/// The page of `sorted` for `limit`.
fn paginate_rows(sorted: Vec<Bounty>, limit: i64) -> (page: BountyPage)
    ensures
        (page.bounties@, page.next_cursor) == page_of(sorted@, limit),
{
    let n: usize = if limit < 0 {
        0
    } else if limit as u64 >= sorted.len() as u64 {
        sorted.len()
    } else {
        limit as usize
    };
    if sorted.len() > n {
        let mut rows = sorted;
        rows.truncate(n);
        let next_cursor = if n > 0 {
            Some(rows[n - 1].created_at)
        } else {
            None
        };
        proof {
            assert(rows@ =~= sorted@.take(n as int));
        }
        BountyPage { bounties: rows, next_cursor }
    } else {
        BountyPage { bounties: sorted, next_cursor: None }
    }
}

#[verifier::loop_isolation(false)]
/// Copies of the rows of `db` that satisfy the creator filter and cursor.
fn rows_by_creator(db: &DbStore, creator: &str, cursor: Option<Timestamp>) -> (r: Vec<Bounty>)
    ensures
        r@ == db.bounties@.filter(|b: Bounty| creator_match(creator@, cursor, b)),
{
    let ghost pred = |b: Bounty| creator_match(creator@, cursor, b);
    let mut out: Vec<Bounty> = Vec::new();
    let mut i: usize = 0;
    while i < db.bounties.len()
        invariant
            i <= db.bounties@.len(),
            out@ == db.bounties@.take(i as int).filter(pred),
        decreases db.bounties@.len() - i,
    {
        let b = &db.bounties[i];
        let keep_creator = creator.unicode_len() == 0 || str_eq(b.creator.as_str(), creator);
        let keep_cursor = match cursor {
            Some(c) => is_earlier(b.created_at, c),
            None => true,
        };
        proof {
            let prefix = db.bounties@.take(i as int + 1);
            assert(prefix.drop_last() =~= db.bounties@.take(i as int));
            assert(prefix.last() == *b);
            reveal(Seq::filter);
            assert(pred(*b) == (keep_creator && keep_cursor));
            assert(prefix.filter(pred) == if pred(*b) {
                db.bounties@.take(i as int).filter(pred).push(*b)
            } else {
                db.bounties@.take(i as int).filter(pred)
            });
        }
        if keep_creator && keep_cursor {
            out.push(copy_bounty(b));
        }
        i = i + 1;
    }
    proof {
        assert(db.bounties@.take(i as int) =~= db.bounties@);
    }
    out
}

#[verifier::loop_isolation(false)]
/// Copies of the rows of `db` recorded for `assignee` before the cursor.
fn rows_by_assignee(db: &DbStore, assignee: &str, cursor: Option<Timestamp>) -> (r: Vec<Bounty>)
    ensures
        r@ == db.bounties@.filter(|b: Bounty| assignee_match(assignee@, cursor, b)),
{
    let ghost pred = |b: Bounty| assignee_match(assignee@, cursor, b);
    let mut out: Vec<Bounty> = Vec::new();
    let mut i: usize = 0;
    while i < db.bounties.len()
        invariant
            i <= db.bounties@.len(),
            out@ == db.bounties@.take(i as int).filter(pred),
        decreases db.bounties@.len() - i,
    {
        let b = &db.bounties[i];
        let keep_assignee = match &b.assignee {
            Some(a) => str_eq(a.as_str(), assignee),
            None => false,
        };
        let keep_cursor = match cursor {
            Some(c) => is_earlier(b.created_at, c),
            None => true,
        };
        proof {
            let prefix = db.bounties@.take(i as int + 1);
            assert(prefix.drop_last() =~= db.bounties@.take(i as int));
            assert(prefix.last() == *b);
            reveal(Seq::filter);
            assert(pred(*b) == (keep_assignee && keep_cursor));
            assert(prefix.filter(pred) == if pred(*b) {
                db.bounties@.take(i as int).filter(pred).push(*b)
            } else {
                db.bounties@.take(i as int).filter(pred)
            });
        }
        if keep_assignee && keep_cursor {
            out.push(copy_bounty(b));
        }
        i = i + 1;
    }
    proof {
        assert(db.bounties@.take(i as int) =~= db.bounties@);
    }
    out
}

/// Bounties created by `creator` (every bounty when `creator` is empty)
/// strictly before `cursor`, newest first, at most `limit` of them.
pub fn list_bounties_by_creator(
    db: &DbStore,
    creator: &str,
    limit: i64,
    cursor: Option<Timestamp>,
) -> (page: BountyPage)
    ensures
        (page.bounties@, page.next_cursor) == page_of(
            newest_first(db.bounties@.filter(|b: Bounty| creator_match(creator@, cursor, b))),
            limit,
        ),
        forall|k: int| 0 <= k < page.bounties@.len() ==> {
            let r = #[trigger] page.bounties@[k];
            &&& (creator@.len() == 0 || r.creator@ == creator@)
            &&& (cursor matches Some(c) ==> r.created_at.secs < c.secs || (r.created_at.secs == c.secs
                && r.created_at.nanos < c.nanos))
        },
{
    proof {
        law_creator_page_before_cursor(db.bounties@, creator@, limit, cursor);
    }
    let rows = rows_by_creator(db, creator, cursor);
    paginate_rows(sort_newest_first(rows), limit)
}

/// Bounties whose recorded assignee is `assignee`, strictly before
/// `cursor`, newest first, at most `limit` of them.
pub fn list_bounties_by_assignee(
    db: &DbStore,
    assignee: &str,
    limit: i64,
    cursor: Option<Timestamp>,
) -> (page: BountyPage)
    ensures
        (page.bounties@, page.next_cursor) == page_of(
            newest_first(db.bounties@.filter(|b: Bounty| assignee_match(assignee@, cursor, b))),
            limit,
        ),
        forall|k: int| 0 <= k < page.bounties@.len() ==> {
            let r = #[trigger] page.bounties@[k];
            &&& (r.assignee matches Some(a) && a@ == assignee@)
            &&& (cursor matches Some(c) ==> r.created_at.secs < c.secs || (r.created_at.secs == c.secs
                && r.created_at.nanos < c.nanos))
        },
{
    proof {
        law_assignee_page_before_cursor(db.bounties@, assignee@, limit, cursor);
    }
    let rows = rows_by_assignee(db, assignee, cursor);
    paginate_rows(sort_newest_first(rows), limit)
}

// ---------------------------------------------------------------------------
// Idempotency-key store
// ---------------------------------------------------------------------------

/// Outcome recorded for a client-supplied idempotency key: reserved while
/// the first request is being processed, then the response body it
/// produced.
#[derive(Debug)]
pub enum IdempotencyEntry {
    InFlight,
    Completed(String),
}

/// Recently seen idempotency keys and their outcomes.
#[derive(Debug)]
pub struct IdempotencyStore {
    pub entries: StrMap<IdempotencyEntry>,
}

impl IdempotencyStore {
    /// A store with no key.
    pub fn new() -> (s: IdempotencyStore)
        ensures
            s.entries@ == Map::<Seq<char>, IdempotencyEntry>::empty(),
    {
        IdempotencyStore { entries: StrMap::new() }
    }
}

} // verus!
