//! Transaction routes: dispute resolution and self-claims, their error
//! shape, and the idempotency-key guard against double submission.
use vstd::prelude::*;
use crate::backend::db::{DbStore, IdempotencyEntry, IdempotencyStore};
use crate::contract::symbols::str_eq;

verus! {

/// Relay submissions allowed per claimant and window.
pub const SELF_CLAIM_RATE_LIMIT: u32 = 5;

/// Length of the self-claim rate window, in seconds.
pub const SELF_CLAIM_RATE_WINDOW_SECS: u64 = 60;

// ---------------------------------------------------------------------------
// Error shape
// ---------------------------------------------------------------------------

/// The JSON shape returned to the client on any error.
#[derive(Debug)]
pub struct AppError {
    pub code: u16,
    pub message: String,
}

/// The message every server error carries to the client.
pub open spec fn generic_server_error() -> Seq<char> {
    "internal server error"@
}

/// The status a response is sent with: the error's own code when it is a
/// valid HTTP status (100 through 999), otherwise 500.
pub open spec fn sent_status(code: u16) -> u16 {
    if 100 <= code <= 999 {
        code
    } else {
        500
    }
}

/// `http::StatusCode::from_u16`, read back with `as_u16`: the status is
/// valid exactly for codes 100 through 999 and keeps its number.
#[verifier::external_body]
fn valid_status_code(code: u16) -> (r: Option<u16>)
    ensures
        r == (if 100 <= code <= 999 {
            Some(code)
        } else {
            None
        }),
{
    match axum::http::StatusCode::from_u16(code) {
        Ok(status) => Some(status.as_u16()),
        Err(_) => None,
    }
}

fn owned(s: &str) -> (r: String)
    ensures
        r@ == s@,
{
    String::from_str(s)
}

impl AppError {
    /// A 400 error carrying `msg`.
    pub fn bad_request(msg: String) -> (e: AppError)
        ensures
            e.code == 400,
            e.message == msg,
    {
        AppError { code: 400, message: msg }
    }

    /// A 404 error carrying `msg`.
    pub fn not_found(msg: String) -> (e: AppError)
        ensures
            e.code == 404,
            e.message == msg,
    {
        AppError { code: 404, message: msg }
    }

    /// A 429 error carrying `msg`.
    pub fn too_many_requests(msg: String) -> (e: AppError)
        ensures
            e.code == 429,
            e.message == msg,
    {
        AppError { code: 429, message: msg }
    }

    /// An internal server error. `detail` belongs in the server log only;
    /// the error carries the generic message.
    pub fn internal(detail: &str) -> (e: AppError)
        ensures
            e.code == 500,
            e.message@ == generic_server_error(),
    {
        proof {
            reveal_strlit("internal server error");
        }
        AppError { code: 500, message: owned("internal server error") }
    }

    /// The error as it is sent to the client: the status it is sent with,
    /// and for any server error (5xx) the generic message in place of the
    /// message it was built with.
    pub fn client_view(self) -> (e: AppError)
        ensures
            e.code == sent_status(self.code),
            500 <= e.code < 600 ==> e.message@ == generic_server_error(),
            !(500 <= e.code < 600) ==> e.message == self.message,
    {
        let code = match valid_status_code(self.code) {
            Some(c) => c,
            None => 500,
        };
        if 500 <= code && code < 600 {
            proof {
                reveal_strlit("internal server error");
            }
            AppError { code, message: owned("internal server error") }
        } else {
            AppError { code, message: self.message }
        }
    }
}

// ---------------------------------------------------------------------------
// Idempotency keys
// ---------------------------------------------------------------------------

/// Outcome of checking an inbound idempotency key before doing any work.
#[derive(Debug)]
pub enum IdempotencyCheck {
    /// No key was supplied; proceed without deduplication.
    NotRequested,
    /// The key was fresh and is now reserved as in flight; the caller must
    /// finalize it once the request completes.
    Proceed(String),
    /// A request with this key already completed; replay its response body.
    Replay(String),
    /// A request with this key is still being processed.
    Conflict(AppError),
}

/// The message of the conflict answered while a key is in flight.
pub open spec fn in_flight_message() -> Seq<char> {
    "a request with this Idempotency-Key is already in progress"@
}

/// Whether `c` is the answer owed for a key whose recorded outcome is `e`:
/// the cached body for a completed request, a 409 conflict for one in
/// flight.
pub open spec fn answers_entry(e: IdempotencyEntry, c: IdempotencyCheck) -> bool {
    match e {
        IdempotencyEntry::Completed(body) => c == IdempotencyCheck::Replay(body),
        IdempotencyEntry::InFlight => c matches IdempotencyCheck::Conflict(err) && err.code == 409
            && err.message@ == in_flight_message(),
    }
}

/// Whether `c` is the answer owed for `key` against the recorded outcomes
/// `m`.
pub open spec fn check_answers(
    m: Map<Seq<char>, IdempotencyEntry>,
    key: Option<Seq<char>>,
    c: IdempotencyCheck,
) -> bool {
    match key {
        Some(k) => if k.len() == 0 {
            c is NotRequested
        } else if m.contains_key(k) {
            answers_entry(m[k], c)
        } else {
            c matches IdempotencyCheck::Proceed(s) && s@ == k
        },
        None => c is NotRequested,
    }
}

/// The recorded outcomes after checking `key`: a fresh non-empty key is
/// reserved as in flight; nothing else changes.
pub open spec fn check_effect(m: Map<Seq<char>, IdempotencyEntry>, key: Option<Seq<char>>) -> Map<
    Seq<char>,
    IdempotencyEntry,
> {
    match key {
        Some(k) => if k.len() > 0 && !m.contains_key(k) {
            m.insert(k, IdempotencyEntry::InFlight)
        } else {
            m
        },
        None => m,
    }
}

/// The recorded outcomes after finalizing `key`: the response body of a
/// success is kept for replay; a failure releases the key.
pub open spec fn finalize_effect(
    m: Map<Seq<char>, IdempotencyEntry>,
    key: Seq<char>,
    result: Option<String>,
) -> Map<Seq<char>, IdempotencyEntry> {
    match result {
        Some(body) => m.insert(key, IdempotencyEntry::Completed(body)),
        None => m.remove(key),
    }
}

/// The key as a sequence of characters.
pub open spec fn key_view(key: Option<&str>) -> Option<Seq<char>> {
    match key {
        Some(k) => Some(k@),
        None => None,
    }
}

/// The answer owed for a key whose recorded outcome is `entry`.
pub fn idempotency_check_from_entry(entry: &IdempotencyEntry) -> (c: IdempotencyCheck)
    ensures
        answers_entry(*entry, c),
{
    match entry {
        IdempotencyEntry::Completed(body) => IdempotencyCheck::Replay(body.clone()),
        IdempotencyEntry::InFlight => {
            proof {
                reveal_strlit("a request with this Idempotency-Key is already in progress");
            }
            IdempotencyCheck::Conflict(
                AppError {
                    code: 409,
                    message: owned("a request with this Idempotency-Key is already in progress"),
                },
            )
        },
    }
}

/// Checks the idempotency key a request carries (`None` when it carries
/// none) against `store`: a fresh key is reserved as in flight, a known one
/// answers with its replay or conflict.
pub fn check_idempotency_key(key: Option<&str>, store: &mut IdempotencyStore) -> (c:
    IdempotencyCheck)
    ensures
        check_answers(old(store).entries@, key_view(key), c),
        final(store).entries@ == check_effect(old(store).entries@, key_view(key)),
{
    match key {
        None => IdempotencyCheck::NotRequested,
        Some(k) => {
            if k.unicode_len() == 0 {
                return IdempotencyCheck::NotRequested;
            }
            match store.entries.get(k) {
                Some(entry) => idempotency_check_from_entry(entry),
                None => {
                    store.entries.insert(owned(k), IdempotencyEntry::InFlight);
                    IdempotencyCheck::Proceed(owned(k))
                },
            }
        },
    }
}

/// Records the outcome of a request that reserved `key`: a success keeps
/// its response body for replay, a failure releases the key.
pub fn finalize_idempotency_key(store: &mut IdempotencyStore, key: String, result: Option<String>)
    ensures
        final(store).entries@ == finalize_effect(old(store).entries@, key@, result),
{
    match result {
        Some(body) => {
            store.entries.insert(key, IdempotencyEntry::Completed(body));
        },
        None => {
            store.entries.remove(key.as_str());
        },
    }
}

/// Retry after success: once a request holding a fresh key completes, a
/// retry with the same key is answered with the cached response body.
pub proof fn lemma_retry_replays_completed_response(
    m: Map<Seq<char>, IdempotencyEntry>,
    k: Seq<char>,
    body: String,
    c: IdempotencyCheck,
)
    requires
        k.len() > 0,
        !m.contains_key(k),
        check_answers(
            finalize_effect(check_effect(m, Some(k)), k, Some(body)),
            Some(k),
            c,
        ),
    ensures
        c == IdempotencyCheck::Replay(body),
{
}

/// Retry while in flight: a retry with a key whose first request has not
/// finished is answered with a 409 conflict and changes nothing.
pub proof fn lemma_retry_in_flight_conflicts(
    m: Map<Seq<char>, IdempotencyEntry>,
    k: Seq<char>,
    c: IdempotencyCheck,
)
    requires
        k.len() > 0,
        !m.contains_key(k),
        check_answers(check_effect(m, Some(k)), Some(k), c),
    ensures
        c matches IdempotencyCheck::Conflict(err) && err.code == 409,
        check_effect(check_effect(m, Some(k)), Some(k)) == check_effect(m, Some(k)),
{
}

/// Retry after failure: a failed request releases its key, so a retry with
/// the same key proceeds afresh.
pub proof fn lemma_failure_releases_key(
    m: Map<Seq<char>, IdempotencyEntry>,
    k: Seq<char>,
    c: IdempotencyCheck,
)
    requires
        k.len() > 0,
        !m.contains_key(k),
        check_answers(finalize_effect(check_effect(m, Some(k)), k, None), Some(k), c),
    ensures
        c matches IdempotencyCheck::Proceed(s) && s@ == k,
        finalize_effect(check_effect(m, Some(k)), k, None) == m,
{
    assert(m.insert(k, IdempotencyEntry::InFlight).remove(k) =~= m);
}

/// Keys are independent: checking or finalizing one key leaves the
/// recorded outcome of every other key as it was.
pub proof fn lemma_keys_are_independent(
    m: Map<Seq<char>, IdempotencyEntry>,
    k: Seq<char>,
    other: Seq<char>,
    result: Option<String>,
)
    requires
        k != other,
    ensures
        check_effect(m, Some(k)).contains_key(other) == m.contains_key(other),
        m.contains_key(other) ==> check_effect(m, Some(k))[other] == m[other],
        finalize_effect(m, k, result).contains_key(other) == m.contains_key(other),
        m.contains_key(other) ==> finalize_effect(m, k, result)[other] == m[other],
{
}

// ---------------------------------------------------------------------------
// Dispute resolution and self-claims
// ---------------------------------------------------------------------------

/// The fields of a stored bounty record that the payout flows read.
#[derive(Debug)]
pub struct Bounty {
    pub id: String,
    pub creator: String,
    pub amount: u64,
    /// Unix time (seconds) after which a self-claim is allowed.
    pub expires_at: i64,
}

#[derive(Debug)]
pub struct ResolveDisputeRequest {
    pub bounty_id: String,
    pub arbitrator: String,
    pub winner: String,
}

#[derive(Debug)]
pub struct ResolveDisputeResponse {
    pub ok: bool,
    pub xdr: Option<String>,
}

#[derive(Debug)]
pub struct SelfClaimRequest {
    pub bounty_id: String,
    pub claimant: String,
}

/// The decimal digit character for `d` (`d < 10`).
pub open spec fn digit_char(d: nat) -> char {
    (48 + d) as char
}

/// The decimal rendering of `n`, without leading zeros.
pub open spec fn decimal(n: nat) -> Seq<char>
    decreases n,
{
    if n < 10 {
        seq![digit_char(n)]
    } else {
        decimal(n / 10).push(digit_char(n % 10))
    }
}

/// The payout transaction built for `bounty` paying `winner`.
pub open spec fn payout_xdr(bounty: Bounty, winner: Seq<char>) -> Seq<char> {
    "XDR:bounty="@ + bounty.id@ + ",winner="@ + winner + ",amount="@ + decimal(bounty.amount as nat)
}

fn digit_str(d: u64) -> (s: &'static str)
    requires
        d < 10,
    ensures
        s@ == seq![digit_char(d as nat)],
{
    proof {
        reveal_strlit("0");
        reveal_strlit("1");
        reveal_strlit("2");
        reveal_strlit("3");
        reveal_strlit("4");
        reveal_strlit("5");
        reveal_strlit("6");
        reveal_strlit("7");
        reveal_strlit("8");
        reveal_strlit("9");
    }
    let s = if d == 0 {
        "0"
    } else if d == 1 {
        "1"
    } else if d == 2 {
        "2"
    } else if d == 3 {
        "3"
    } else if d == 4 {
        "4"
    } else if d == 5 {
        "5"
    } else if d == 6 {
        "6"
    } else if d == 7 {
        "7"
    } else if d == 8 {
        "8"
    } else {
        "9"
    };
    assert(s@ =~= seq![digit_char(d as nat)]);
    s
}

/// Appends the decimal rendering of `n` to `out`.
pub fn append_decimal(out: &mut String, n: u64)
    ensures
        final(out)@ == old(out)@ + decimal(n as nat),
    decreases n,
{
    if n >= 10 {
        append_decimal(out, n / 10);
    }
    out.append(digit_str(n % 10));
    proof {
        if n >= 10 {
            assert(decimal(n as nat) == decimal((n / 10) as nat).push(digit_char((n % 10) as nat)));
        }
    }
    assert(out@ =~= old(out)@ + decimal(n as nat));
}

/// The payout transaction for `bounty` paying `winner` (the transaction
/// builder's textual stand-in).
pub fn build_payout_xdr(bounty: &Bounty, winner: &str) -> (x: String)
    ensures
        x@ == payout_xdr(*bounty, winner@),
{
    let mut out = owned("XDR:bounty=");
    out.append(bounty.id.as_str());
    out.append(",winner=");
    out.append(winner);
    out.append(",amount=");
    append_decimal(&mut out, bounty.amount);
    out
}

/// The stored record of bounty `id`, or a 404 "bounty not found".
pub fn fetch_bounty_record(db: &DbStore, id: &str) -> (r: Result<String, AppError>)
    ensures
        db.records@.contains_key(id@) ==> r == Ok::<String, AppError>(db.records@[id@]),
        !db.records@.contains_key(id@) ==> (r matches Err(e) && e.code == 404 && e.message@
            == "bounty not found"@),
{
    match db.records.get(id) {
        Some(raw) => Ok(raw.clone()),
        None => {
            proof {
                reveal_strlit("bounty not found");
            }
            Err(AppError::not_found(owned("bounty not found")))
        },
    }
}

/// The answer to a dispute resolution: only the bounty's creator may
/// arbitrate; otherwise the payout to the winner is built.
pub fn resolve_dispute_decision(bounty: &Bounty, req: &ResolveDisputeRequest) -> (r: Result<
    ResolveDisputeResponse,
    AppError,
>)
    ensures
        req.arbitrator@ != bounty.creator@ ==> (r matches Err(e) && e.code == 400 && e.message@
            == "only the bounty creator may act as arbitrator"@),
        req.arbitrator@ == bounty.creator@ ==> (r matches Ok(resp) && resp.ok && (resp.xdr
            matches Some(x) && x@ == payout_xdr(*bounty, req.winner@))),
{
    if !str_eq(req.arbitrator.as_str(), bounty.creator.as_str()) {
        proof {
            reveal_strlit("only the bounty creator may act as arbitrator");
        }
        return Err(AppError::bad_request(owned("only the bounty creator may act as arbitrator")));
    }
    let xdr = build_payout_xdr(bounty, req.winner.as_str());
    Ok(ResolveDisputeResponse { ok: true, xdr: Some(xdr) })
}

/// The answer to a self-claim at Unix time `now` (seconds): allowed only
/// once the time is strictly past the bounty's staleness deadline.
pub fn self_claim_decision(bounty: &Bounty, req: &SelfClaimRequest, now: i64) -> (r: Result<
    ResolveDisputeResponse,
    AppError,
>)
    ensures
        now <= bounty.expires_at ==> (r matches Err(e) && e.code == 400 && e.message@
            == "self-claim not yet available: staleness window has not elapsed"@),
        now > bounty.expires_at ==> (r matches Ok(resp) && resp.ok && (resp.xdr matches Some(x)
            && x@ == payout_xdr(*bounty, req.claimant@))),
{
    if now <= bounty.expires_at {
        proof {
            reveal_strlit("self-claim not yet available: staleness window has not elapsed");
        }
        return Err(
            AppError::bad_request(
                owned("self-claim not yet available: staleness window has not elapsed"),
            ),
        );
    }
    let xdr = build_payout_xdr(bounty, req.claimant.as_str());
    Ok(ResolveDisputeResponse { ok: true, xdr: Some(xdr) })
}

} // verus!
