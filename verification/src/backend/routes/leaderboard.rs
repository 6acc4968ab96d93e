//! Leaderboard route: page-size clamping and the 60-second response cache.
use vstd::prelude::*;
use std::sync::{Arc, RwLock};
use std::time::Instant;
use crate::backend::clock::{duration_from_secs, instant_checked_add, instant_now, is_before};
use crate::backend::db::new_lock;

verus! {

/// Largest page the leaderboard returns.
pub const MAX_LIST_LIMIT: i64 = 100;

/// Page size used when the caller names none.
pub const DEFAULT_LIMIT: i64 = 20;

/// How long a computed leaderboard is served from the cache, in seconds.
pub const CACHE_EXPIRY_SECS: u64 = 60;

/// Query parameters of `GET /leaderboard`.
#[derive(Debug)]
pub struct LeaderboardParams {
    pub limit: Option<i64>,
}

/// One ranked contributor.
#[derive(Debug)]
pub struct LeaderboardEntry {
    pub address: String,
    pub reputation: u32,
    pub completed_bounties: u32,
}

/// Contributors ranked by reputation, best first.
#[derive(Debug)]
pub struct LeaderboardPage {
    pub entries: Vec<LeaderboardEntry>,
}

/// A computed leaderboard and the instant until which it may be served.
#[derive(Debug)]
pub struct CachedLeaderboard {
    pub data: LeaderboardPage,
    pub expires_at: Instant,
}

/// Shared, thread-safe leaderboard cache.
pub type LeaderboardCache = Arc<RwLock<Option<CachedLeaderboard>>>;

/// A new, empty leaderboard cache.
pub fn new_leaderboard_cache() -> LeaderboardCache {
    Arc::new(new_lock(None))
}

/// The page size used for a requested one: the request (20 when absent)
/// clamped to 1 through [`MAX_LIST_LIMIT`].
pub open spec fn effective_limit(requested: Option<i64>) -> i64 {
    let l = match requested {
        Some(l) => l,
        None => DEFAULT_LIMIT,
    };
    if l > MAX_LIST_LIMIT {
        MAX_LIST_LIMIT
    } else if l < 1 {
        1
    } else {
        l
    }
}

/// The page size used for a requested one.
pub fn leaderboard_limit(requested: Option<i64>) -> (l: i64)
    ensures
        l == effective_limit(requested),
        1 <= l <= MAX_LIST_LIMIT,
{
    let l = match requested {
        Some(l) => l,
        None => DEFAULT_LIMIT,
    };
    if l > MAX_LIST_LIMIT {
        MAX_LIST_LIMIT
    } else if l < 1 {
        1
    } else {
        l
    }
}

/// An exact copy of `e`.
pub fn copy_entry(e: &LeaderboardEntry) -> (r: LeaderboardEntry)
    ensures
        r == *e,
{
    LeaderboardEntry {
        address: e.address.clone(),
        reputation: e.reputation,
        completed_bounties: e.completed_bounties,
    }
}

/// The first `limit` entries of `entries` (all of them when there are
/// fewer; none for a negative limit).
pub open spec fn first_entries(entries: Seq<LeaderboardEntry>, limit: i64) -> Seq<LeaderboardEntry> {
    if limit < 0 {
        Seq::empty()
    } else if limit >= entries.len() {
        entries
    } else {
        entries.take(limit as int)
    }
}

/// Copies of the first `limit` entries of `page`.
pub fn truncated_copy(page: &LeaderboardPage, limit: i64) -> (r: LeaderboardPage)
    ensures
        r.entries@ == first_entries(page.entries@, limit),
{
    let n: usize = if limit < 0 {
        0
    } else if limit as u64 >= page.entries.len() as u64 {
        page.entries.len()
    } else {
        limit as usize
    };
    let mut out: Vec<LeaderboardEntry> = Vec::new();
    let mut i: usize = 0;
    while i < n
        invariant
            n <= page.entries@.len(),
            i <= n,
            out@ == page.entries@.take(i as int),
        decreases n - i,
    {
        out.push(copy_entry(&page.entries[i]));
        proof {
            assert(page.entries@.take(i as int + 1) =~= page.entries@.take(i as int).push(
                page.entries@[i as int],
            ));
        }
        i = i + 1;
    }
    proof {
        if limit >= 0 && limit >= page.entries@.len() {
            assert(page.entries@.take(n as int) =~= page.entries@);
        }
        if limit < 0 {
            assert(page.entries@.take(0) =~= Seq::<LeaderboardEntry>::empty());
        }
    }
    LeaderboardPage { entries: out }
}

/// The page served from `cached` for `limit`, given whether the cached
/// entry is still fresh: the cached leaderboard's first `limit` entries when
/// the cache holds one and it is fresh, nothing otherwise.
pub fn page_if_fresh(cached: &Option<CachedLeaderboard>, fresh: bool, limit: i64) -> (r: Option<
    LeaderboardPage,
>)
    ensures
        r is Some <==> (cached is Some && fresh),
        r matches Some(page) ==> (cached matches Some(c) && page.entries@ == first_entries(
            c.data.entries@,
            limit,
        )),
{
    match cached {
        Some(entry) => {
            if fresh {
                Some(truncated_copy(&entry.data, limit))
            } else {
                None
            }
        },
        None => None,
    }
}

/// The page served from `cached` for `limit`, when the cache holds a
/// leaderboard that has not expired. Whether it has expired is read from
/// the clock, so the contract holds for either reading: nothing comes from
/// an empty cache, and what comes is the cached leaderboard's first `limit`
/// entries; [`page_if_fresh`] states the result for each reading.
pub fn serve_cached(cached: &Option<CachedLeaderboard>, limit: i64) -> (r: Option<LeaderboardPage>)
    ensures
        cached is None ==> r is None,
        r matches Some(page) ==> (cached matches Some(c) && page.entries@ == first_entries(
            c.data.entries@,
            limit,
        )),
{
    let fresh = match cached {
        Some(entry) => {
            let now = instant_now();
            is_before(&now, &entry.expires_at)
        },
        None => false,
    };
    page_if_fresh(cached, fresh, limit)
}

/// An exact copy of `page`.
pub fn copy_page(page: &LeaderboardPage) -> (r: LeaderboardPage)
    ensures
        r.entries@ == page.entries@,
{
    let mut out: Vec<LeaderboardEntry> = Vec::new();
    let mut i: usize = 0;
    while i < page.entries.len()
        invariant
            i <= page.entries@.len(),
            out@ == page.entries@.take(i as int),
        decreases page.entries@.len() - i,
    {
        out.push(copy_entry(&page.entries[i]));
        proof {
            assert(page.entries@.take(i as int + 1) =~= page.entries@.take(i as int).push(
                page.entries@[i as int],
            ));
        }
        i = i + 1;
    }
    proof {
        assert(page.entries@.take(i as int) =~= page.entries@);
    }
    LeaderboardPage { entries: out }
}

/// The cache entry for a freshly computed leaderboard: a copy of `page`,
/// served for [`CACHE_EXPIRY_SECS`] seconds from now. Should the clock be
/// unable to represent that instant, the entry expires at once (it is
/// never served and the next request computes the leaderboard afresh).
pub fn cache_entry_for(page: &LeaderboardPage) -> (c: CachedLeaderboard)
    ensures
        c.data.entries@ == page.entries@,
{
    let now = instant_now();
    let ttl = duration_from_secs(CACHE_EXPIRY_SECS);
    let expires_at = match instant_checked_add(&now, &ttl) {
        Some(at) => at,
        None => now,
    };
    CachedLeaderboard { data: copy_page(page), expires_at }
}

} // verus!
