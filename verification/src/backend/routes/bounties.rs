//! Bounty listing routes: page-size clamping, assignee address checks, and
//! the data of the bounty update stream.
use vstd::prelude::*;
use crate::backend::db::{
    creator_match, assignee_match, list_bounties_by_assignee, list_bounties_by_creator,
    newest_first, page_of, Bounty, BountyPage, DbStore, Timestamp,
};

verus! {

/// Largest page any listing endpoint returns, whatever the caller asks.
pub const MAX_LIST_LIMIT: i64 = 100;

/// Page size used when the caller names none.
pub const DEFAULT_LIST_LIMIT: i64 = 20;

/// Query parameters of the listing endpoints.
#[derive(Debug)]
pub struct ListParams {
    pub limit: Option<i64>,
    pub cursor: Option<Timestamp>,
}

/// The page size used for a requested one: the request (20 when absent),
/// capped at [`MAX_LIST_LIMIT`].
pub open spec fn effective_list_limit(requested: Option<i64>) -> i64 {
    let l = match requested {
        Some(l) => l,
        None => DEFAULT_LIST_LIMIT,
    };
    if l < MAX_LIST_LIMIT {
        l
    } else {
        MAX_LIST_LIMIT
    }
}

/// The page size used for a requested one.
pub fn list_limit(requested: Option<i64>) -> (l: i64)
    ensures
        l == effective_list_limit(requested),
{
    let l = match requested {
        Some(l) => l,
        None => DEFAULT_LIST_LIMIT,
    };
    if l < MAX_LIST_LIMIT {
        l
    } else {
        MAX_LIST_LIMIT
    }
}

/// A 56-character StrKey (account `G...` or contract `C...`) drawn from the
/// base32 alphabet `A`-`Z`, `2`-`7`. No checksum is checked.
pub open spec fn address_syntax_ok(a: Seq<char>) -> bool {
    &&& a.len() == 56
    &&& (a[0] == 'G' || a[0] == 'C')
    &&& forall|i: int| 0 <= i < a.len() ==> ('A' <= #[trigger] a[i] <= 'Z' || '2' <= a[i] <= '7')
}

/// Whether `address` is syntactically a Stellar account or contract
/// address.
pub fn is_syntactically_valid_address(address: &str) -> (b: bool)
    ensures
        b == address_syntax_ok(address@),
{
    let n = address.unicode_len();
    if n != 56 {
        return false;
    }
    let first = address.get_char(0);
    if !(first == 'G' || first == 'C') {
        return false;
    }
    let mut i: usize = 0;
    while i < n
        invariant
            n == address@.len(),
            i <= n,
            forall|k: int| 0 <= k < i ==> ('A' <= #[trigger] address@[k] <= 'Z' || '2' <= address@[k] <= '7'),
        decreases n - i,
    {
        let c = address.get_char(i);
        if !(('A' <= c && c <= 'Z') || ('2' <= c && c <= '7')) {
            return false;
        }
        i = i + 1;
    }
    true
}

/// `GET /bounties`: every bounty before the cursor, newest first.
pub fn list_bounties(db: &DbStore, params: &ListParams) -> (page: BountyPage)
    ensures
        (page.bounties@, page.next_cursor) == page_of(
            newest_first(
                db.bounties@.filter(|b: Bounty| creator_match(Seq::empty(), params.cursor, b)),
            ),
            effective_list_limit(params.limit),
        ),
{
    let limit = list_limit(params.limit);
    let page = list_bounties_by_creator(db, "", limit, params.cursor);
    proof {
        reveal_strlit("");
        assert(""@ =~= Seq::<char>::empty());
        assert((|b: Bounty| creator_match(""@, params.cursor, b)) =~= (|b: Bounty|
            creator_match(Seq::empty(), params.cursor, b)));
    }
    page
}

/// The message of the 400 answered for a malformed assignee address.
pub open spec fn bad_assignee_message() -> Seq<char> {
    "assignee address is not a syntactically valid Stellar address"@
}

/// `GET /bounties/assignee/{address}`: a malformed address is refused
/// before the store is read; otherwise the assignee's bounties before the
/// cursor, newest first.
pub fn list_bounties_for_assignee(db: &DbStore, address: &str, params: &ListParams) -> (r: Result<
    BountyPage,
    String,
>)
    ensures
        !address_syntax_ok(address@) ==> (r matches Err(m) && m@ == bad_assignee_message()),
        address_syntax_ok(address@) ==> (r matches Ok(page) && (page.bounties@, page.next_cursor)
            == page_of(
            newest_first(
                db.bounties@.filter(|b: Bounty| assignee_match(address@, params.cursor, b)),
            ),
            effective_list_limit(params.limit),
        )),
{
    if !is_syntactically_valid_address(address) {
        proof {
            reveal_strlit("assignee address is not a syntactically valid Stellar address");
        }
        return Err(
            String::from_str("assignee address is not a syntactically valid Stellar address"),
        );
    }
    let limit = list_limit(params.limit);
    Ok(list_bounties_by_assignee(db, address, limit, params.cursor))
}

/// Name of the event the bounty stream sends on every state change.
pub const BOUNTY_UPDATED_EVENT: &'static str = "bounty_updated";

/// The data of a stream event for bounty `id`: `{"bountyId":"<id>"}`.
pub open spec fn stream_event_data(id: Seq<char>) -> Seq<char> {
    "{\"bountyId\":\""@ + id + "\"}"@
}

/// The data of a stream event for bounty `id`.
pub fn bounty_updated_data(id: &str) -> (d: String)
    ensures
        d@ == stream_event_data(id@),
{
    let mut d = String::from_str("{\"bountyId\":\"");
    d.append(id);
    d.append("\"}");
    d
}

} // verus!
