//! Server settings and the parsing of the comma-separated lists read from
//! the environment (reward-token allow-list, CORS origins).
use vstd::prelude::*;
use crate::backend::validation::{is_white_space, trim, trim_str};

verus! {

/// Largest request body accepted (1 MiB).
pub const MAX_BODY_BYTES: usize = 1048576;

/// Wall-clock budget of one request, in seconds.
pub const REQUEST_TIMEOUT_SECS: u64 = 30;

/// Header carrying the request correlation id.
pub const REQUEST_ID_HEADER: &'static str = "x-request-id";

/// Environment variable holding the reward-token allow-list.
pub const ALLOWLISTED_REWARD_TOKENS_ENV: &'static str = "ALLOWLISTED_REWARD_TOKENS";

/// Environment variable holding the comma-separated CORS origin allow-list.
pub const CORS_ALLOWED_ORIGINS_ENV: &'static str = "CORS_ALLOWED_ORIGINS";

/// The comma-separated fields of `s`, as `str::split(',')` yields them
/// (an empty string has one empty field).
pub open spec fn comma_fields(s: Seq<char>) -> Seq<Seq<char>>
    decreases s.len(),
{
    if s.len() == 0 {
        seq![Seq::<char>::empty()]
    } else {
        let f = comma_fields(s.drop_last());
        if s.last() == ',' {
            f.push(Seq::<char>::empty())
        } else {
            f.update(f.len() - 1, f.last().push(s.last()))
        }
    }
}

/// The comma-separated fields of `s`.
pub fn split_commas(s: &str) -> (r: Vec<String>)
    ensures
        r@.len() == comma_fields(s@).len(),
        forall|k: int| 0 <= k < r@.len() ==> #[trigger] r@[k]@ == comma_fields(s@)[k],
{
    let n = s.unicode_len();
    let mut out: Vec<String> = Vec::new();
    let ghost mut done: Seq<Seq<char>> = Seq::empty();
    let mut start: usize = 0;
    let mut i: usize = 0;
    assert(s@.take(0) =~= Seq::<char>::empty());
    assert(s@.subrange(0, 0) =~= Seq::<char>::empty());
    while i < n
        invariant
            n == s@.len(),
            start <= i <= n,
            out@.len() == done.len(),
            forall|k: int| 0 <= k < done.len() ==> #[trigger] out@[k]@ == done[k],
            comma_fields(s@.take(i as int)) == done.push(s@.subrange(start as int, i as int)),
        decreases n - i,
    {
        let c = s.get_char(i);
        proof {
            let p = s@.take(i as int + 1);
            assert(p.drop_last() =~= s@.take(i as int));
            assert(p.last() == c);
        }
        if c == ',' {
            let field = s.substring_char(start, i);
            out.push(String::from_str(field));
            proof {
                let cur = s@.subrange(start as int, i as int);
                assert(s@.subrange(i as int + 1, i as int + 1) =~= Seq::<char>::empty());
                done = done.push(cur);
            }
            start = i + 1;
        } else {
            proof {
                let cur = s@.subrange(start as int, i as int);
                assert(s@.subrange(start as int, i as int + 1) =~= cur.push(c));
                assert(done.push(cur).update(done.len() as int, cur.push(c)) =~= done.push(
                    cur.push(c),
                ));
            }
        }
        i = i + 1;
    }
    let last = s.substring_char(start, n);
    out.push(String::from_str(last));
    proof {
        assert(s@.take(n as int) =~= s@);
        done = done.push(s@.subrange(start as int, n as int));
    }
    out
}

/// Whether the allow-list `value` names no token: every comma-separated
/// field is blank once trimmed (so unset, empty and `" , , "` all count).
pub open spec fn allowlist_is_blank(value: Seq<char>) -> bool {
    forall|k: int|
        0 <= k < comma_fields(value).len() ==> #[trigger] trim(comma_fields(value)[k]).len() == 0
}

/// Whether the reward-token allow-list `value` names no token.
pub fn reward_token_allowlist_is_empty(value: &str) -> (b: bool)
    ensures
        b == allowlist_is_blank(value@),
{
    let fields = split_commas(value);
    let mut k: usize = 0;
    while k < fields.len()
        invariant
            k <= fields@.len(),
            fields@.len() == comma_fields(value@).len(),
            forall|j: int| 0 <= j < fields@.len() ==> #[trigger] fields@[j]@ == comma_fields(value@)[j],
            forall|j: int| 0 <= j < k ==> #[trigger] trim(comma_fields(value@)[j]).len() == 0,
        decreases fields@.len() - k,
    {
        let t = trim_str(fields[k].as_str());
        if t.unicode_len() != 0 {
            assert(fields@[k as int]@ == comma_fields(value@)[k as int]);
            return false;
        }
        k = k + 1;
    }
    true
}

/// Whether `s` parses as an HTTP header value: every character is a tab,
/// or at least U+0020 and not U+007F.
pub open spec fn header_value_ok(s: Seq<char>) -> bool {
    forall|i: int|
        0 <= i < s.len() ==> (#[trigger] s[i] == '\t' || (s[i] as u32 >= 32 && s[i] as u32 != 127))
}

/// `http::HeaderValue::from_str` succeeds exactly when every byte is a tab
/// or at least 32 and not 127; every byte of a multi-byte character is at
/// least 128, so in characters: every character is a tab, or at least
/// U+0020 and not U+007F.
#[verifier::external_body]
fn parses_as_header_value(s: &str) -> (b: bool)
    ensures
        b == header_value_ok(s@),
{
    axum::http::HeaderValue::from_str(s).is_ok()
}

/// Whether a trimmed field is kept as an origin: non-empty and a valid
/// header value.
pub open spec fn origin_kept(t: Seq<char>) -> bool {
    t.len() > 0 && header_value_ok(t)
}

/// The origins allowed by the list `allowed`: its comma-separated fields,
/// trimmed, keeping the non-empty ones that are valid header values, in
/// order.
pub open spec fn allowed_origins(allowed: Seq<char>) -> Seq<Seq<char>> {
    comma_fields(allowed).map_values(|f: Seq<char>| trim(f)).filter(|t: Seq<char>| origin_kept(t))
}

/// The origins allowed by the comma-separated list `allowed`.
pub fn cors_allowed_origins(allowed: &str) -> (r: Vec<String>)
    ensures
        r@.len() == allowed_origins(allowed@).len(),
        forall|k: int| 0 <= k < r@.len() ==> #[trigger] r@[k]@ == allowed_origins(allowed@)[k],
{
    let fields = split_commas(allowed);
    let ghost all = comma_fields(allowed@).map_values(|f: Seq<char>| trim(f));
    let ghost pred = |t: Seq<char>| origin_kept(t);
    let mut out: Vec<String> = Vec::new();
    let mut k: usize = 0;
    while k < fields.len()
        invariant
            k <= fields@.len(),
            fields@.len() == comma_fields(allowed@).len(),
            all.len() == fields@.len(),
            forall|j: int| 0 <= j < fields@.len() ==> #[trigger] all[j] == trim(fields@[j]@),
            pred == (|t: Seq<char>| origin_kept(t)),
            out@.len() == all.take(k as int).filter(pred).len(),
            forall|j: int|
                0 <= j < out@.len() ==> #[trigger] out@[j]@ == all.take(k as int).filter(pred)[j],
        decreases fields@.len() - k,
    {
        let t = trim_str(fields[k].as_str());
        let keep = t.unicode_len() > 0 && parses_as_header_value(t);
        proof {
            let p = all.take(k as int + 1);
            assert(p.drop_last() =~= all.take(k as int));
            assert(p.last() == all[k as int]);
            assert(all[k as int] == t@);
            reveal(Seq::filter);
            assert(pred(t@) == keep);
        }
        if keep {
            out.push(String::from_str(t));
        }
        k = k + 1;
    }
    proof {
        assert(all.take(k as int) =~= all);
        assert forall|j: int| 0 <= j < fields@.len() implies #[trigger] all[j] == trim(
            comma_fields(allowed@)[j],
        ) by {
            assert(fields@[j]@ == comma_fields(allowed@)[j]);
        }
    }
    out
}

} // verus!
