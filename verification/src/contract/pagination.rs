//! Cursor pagination over an ordered list of bounty ids.
use vstd::prelude::*;
use crate::contract::types::BountyId;

verus! {

/// Maximum items returned by one paginated call (equal to the page size of
/// the indexes, so a page never spans more than two stored pages).
pub const MAX_LIMIT: u32 = 50;

/// The page size actually used for a requested `limit`: 0 or anything above
/// [`MAX_LIMIT`] means [`MAX_LIMIT`].
pub open spec fn effective_limit(limit: u32) -> int {
    if limit == 0 || limit > MAX_LIMIT {
        MAX_LIMIT as int
    } else {
        limit as int
    }
}

/// End (exclusive) of the window starting at `start`.
pub open spec fn window_end(len: int, start: int, limit: u32) -> int {
    if start + effective_limit(limit) > len {
        len
    } else {
        start + effective_limit(limit)
    }
}

/// The window of `all` selected by `cursor` and `limit`, and the cursor of
/// the item after it (`None` once the list is exhausted).
pub open spec fn spec_paginate(all: Seq<BountyId>, cursor: Option<u32>, limit: u32) -> (Seq<BountyId>, Option<u32>) {
    let start = match cursor {
        Some(c) => c as int,
        None => 0,
    };
    if start >= all.len() {
        (Seq::empty(), None)
    } else {
        let end = window_end(all.len() as int, start, limit);
        (all.subrange(start, end), if end < all.len() { Some(end as u32) } else { None })
    }
}

/// Resolve a `cursor` (zero-based offset, default 0) and `limit` into the
/// matching window of `all` and the cursor of the next window.
pub fn paginate(all: &Vec<BountyId>, cursor: Option<u32>, limit: u32) -> (r: (Vec<BountyId>, Option<u32>))
    requires
        all@.len() <= u32::MAX,
    ensures
        r.0@ == spec_paginate(all@, cursor, limit).0,
        r.1 == spec_paginate(all@, cursor, limit).1,
{
    let effective: u32 = if limit == 0 || limit > MAX_LIMIT {
        MAX_LIMIT
    } else {
        limit
    };
    let start: u32 = match cursor {
        Some(c) => c,
        None => 0,
    };
    let total = all.len();
    let mut result: Vec<BountyId> = Vec::new();
    if start as usize >= total {
        return (result, None);
    }
    let end: usize = if start as u64 + effective as u64 > total as u64 {
        total
    } else {
        (start + effective) as usize
    };
    let mut i: usize = start as usize;
    while i < end
        invariant
            start <= i <= end <= all@.len(),
            result@ == all@.subrange(start as int, i as int),
        decreases end - i,
    {
        result.push(all[i]);
        i = i + 1;
        assert(result@ =~= all@.subrange(start as int, i as int));
    }
    let next = if end < total {
        Some(end as u32)
    } else {
        None
    };
    (result, next)
}

} // verus!
