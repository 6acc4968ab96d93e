//! Input validation rules for bounty creation: reward amounts and
//! description lengths, the same rules the frontend applies.
use vstd::prelude::*;

verus! {

/// On-chain title/description fields are stored as symbols, which cap out at
/// 32 bytes.
pub const SYMBOL_MAX_LENGTH: usize = 32;

/// Whether `c` has the Unicode `White_Space` property.
pub open spec fn is_white_space(c: char) -> bool {
    let u = c as u32;
    ||| 0x09 <= u <= 0x0D
    ||| u == 0x20
    ||| u == 0x85
    ||| u == 0xA0
    ||| u == 0x1680
    ||| 0x2000 <= u <= 0x200A
    ||| u == 0x2028
    ||| u == 0x2029
    ||| u == 0x202F
    ||| u == 0x205F
    ||| u == 0x3000
}

/// `s` without its leading white space.
pub open spec fn trim_start(s: Seq<char>) -> Seq<char>
    decreases s.len(),
{
    if s.len() > 0 && is_white_space(s[0]) {
        trim_start(s.drop_first())
    } else {
        s
    }
}

/// `s` without its trailing white space.
pub open spec fn trim_end(s: Seq<char>) -> Seq<char>
    decreases s.len(),
{
    if s.len() > 0 && is_white_space(s.last()) {
        trim_end(s.drop_last())
    } else {
        s
    }
}

/// `s` without leading and trailing white space.
pub open spec fn trim(s: Seq<char>) -> Seq<char> {
    trim_end(trim_start(s))
}

/// Whether every character of `s` is an ASCII decimal digit.
pub open spec fn all_digits(s: Seq<char>) -> bool {
    forall|i: int| 0 <= i < s.len() ==> '0' <= #[trigger] s[i] <= '9'
}

/// Whether every character of `s` is `'0'`.
pub open spec fn all_zeros(s: Seq<char>) -> bool {
    forall|i: int| 0 <= i < s.len() ==> #[trigger] s[i] == '0'
}

/// `t` splits at a `.` at position `p` into a non-empty whole part and a
/// fraction of one to seven digits.
pub open spec fn decimal_split_at(t: Seq<char>, p: int) -> bool {
    &&& 0 < p < t.len() - 1
    &&& t[p] == '.'
    &&& all_digits(t.subrange(0, p))
    &&& all_digits(t.subrange(p + 1, t.len() as int))
    &&& t.len() - p - 1 <= 7
    &&& !(all_zeros(t.subrange(0, p)) && all_zeros(t.subrange(p + 1, t.len() as int)))
}

/// A strictly positive decimal with at most seven fractional digits
/// (`^\d+(\.\d{1,7})?$` and greater than zero), after trimming.
pub open spec fn reward_amount_ok(s: Seq<char>) -> bool {
    let t = trim(s);
    ||| (t.len() > 0 && all_digits(t) && !all_zeros(t))
    ||| exists|p: int| decimal_split_at(t, p)
}

/// Number of bytes `c` takes in UTF-8.
pub open spec fn utf8_char_len(c: char) -> nat {
    let u = c as u32;
    if u < 0x80 {
        1
    } else if u < 0x800 {
        2
    } else if u < 0x10000 {
        3
    } else {
        4
    }
}

/// Number of bytes `s` takes in UTF-8.
pub open spec fn utf8_len(s: Seq<char>) -> nat
    decreases s.len(),
{
    if s.len() == 0 {
        0
    } else {
        utf8_len(s.drop_last()) + utf8_char_len(s.last())
    }
}

/// Non-empty once trimmed, and at most [`SYMBOL_MAX_LENGTH`] bytes.
pub open spec fn description_length_ok(s: Seq<char>) -> bool {
    let t = trim(s);
    t.len() > 0 && utf8_len(t) <= SYMBOL_MAX_LENGTH
}

/// Whether `c` has the Unicode `White_Space` property.
pub fn is_white_space_char(c: char) -> (b: bool)
    ensures
        b == is_white_space(c),
{
    let u = c as u32;
    (0x09 <= u && u <= 0x0D) || u == 0x20 || u == 0x85 || u == 0xA0 || u == 0x1680 || (0x2000
        <= u && u <= 0x200A) || u == 0x2028 || u == 0x2029 || u == 0x202F || u == 0x205F || u
        == 0x3000
}

proof fn lemma_trim_start_step(s: Seq<char>, i: int)
    requires
        0 <= i < s.len(),
        is_white_space(s[i]),
    ensures
        trim_start(s.subrange(i, s.len() as int)) == trim_start(s.subrange(i + 1, s.len() as int)),
{
    let a = s.subrange(i, s.len() as int);
    assert(a.drop_first() =~= s.subrange(i + 1, s.len() as int));
}

proof fn lemma_trim_end_of_suffix(s: Seq<char>, i: int, j: int)
    requires
        0 <= i <= j <= s.len(),
        forall|k: int| j <= k < s.len() ==> is_white_space(#[trigger] s[k]),
        j > i ==> !is_white_space(s[j - 1]),
        j == i ==> forall|k: int| i <= k < s.len() ==> is_white_space(#[trigger] s[k]),
    ensures
        trim_end(s.subrange(i, s.len() as int)) == s.subrange(i, j),
    decreases s.len() - j,
{
    let a = s.subrange(i, s.len() as int);
    if j == s.len() {
        if j == i {
            assert(a.len() == 0);
        } else {
            assert(a =~= s.subrange(i, j));
        }
    } else {
        // the last character of `a` is white space
        assert(a.last() == s[s.len() - 1]);
        let s2 = s.subrange(0, s.len() - 1);
        assert(a.drop_last() =~= s2.subrange(i, s2.len() as int));
        lemma_trim_end_of_suffix(s2, i, j);
        assert(s2.subrange(i, j) =~= s.subrange(i, j));
    }
}

/// The character bounds `(start, end)` of `trim(s@)` within `s`.
pub fn trim_bounds(s: &str) -> (r: (usize, usize))
    ensures
        r.0 <= r.1 <= s@.len(),
        trim(s@) == s@.subrange(r.0 as int, r.1 as int),
{
    let n = s.unicode_len();
    let mut i: usize = 0;
    assert(s@.subrange(0, n as int) =~= s@);
    while i < n && is_white_space_char(s.get_char(i))
        invariant
            n == s@.len(),
            i <= n,
            trim_start(s@) == trim_start(s@.subrange(i as int, n as int)),
            forall|k: int| 0 <= k < i ==> is_white_space(#[trigger] s@[k]),
        decreases n - i,
    {
        proof {
            lemma_trim_start_step(s@, i as int);
        }
        i = i + 1;
    }
    proof {
        let a = s@.subrange(i as int, n as int);
        if i < n {
            assert(a[0] == s@[i as int]);
        } else {
            assert(a.len() == 0);
        }
        assert(trim_start(s@) == a);
    }
    let mut j: usize = n;
    while j > i && is_white_space_char(s.get_char(j - 1))
        invariant
            n == s@.len(),
            i <= j <= n,
            forall|k: int| j <= k < n ==> is_white_space(#[trigger] s@[k]),
        decreases j,
    {
        j = j - 1;
    }
    proof {
        lemma_trim_end_of_suffix(s@, i as int, j as int);
    }
    (i, j)
}

/// `s` with leading and trailing white space removed.
pub fn trim_str(s: &str) -> (t: &str)
    ensures
        t@ == trim(s@),
{
    let (i, j) = trim_bounds(s);
    s.substring_char(i, j)
}

/// Whether every character of `s` is an ASCII decimal digit.
fn digits_only(s: &str, from: usize, to: usize) -> (b: bool)
    requires
        from <= to <= s@.len(),
    ensures
        b == all_digits(s@.subrange(from as int, to as int)),
{
    let mut k: usize = from;
    while k < to
        invariant
            from <= k <= to <= s@.len(),
            forall|m: int| from <= m < k ==> '0' <= #[trigger] s@[m] <= '9',
        decreases to - k,
    {
        let c = s.get_char(k);
        if !('0' <= c && c <= '9') {
            assert(s@.subrange(from as int, to as int)[k - from] == c);
            return false;
        }
        k = k + 1;
    }
    proof {
        let sub = s@.subrange(from as int, to as int);
        assert forall|m: int| 0 <= m < sub.len() implies '0' <= #[trigger] sub[m] <= '9' by {
            assert(sub[m] == s@[from + m]);
        }
    }
    true
}

/// Whether every character of `s` in `from..to` is `'0'`.
fn zeros_only(s: &str, from: usize, to: usize) -> (b: bool)
    requires
        from <= to <= s@.len(),
    ensures
        b == all_zeros(s@.subrange(from as int, to as int)),
{
    let mut k: usize = from;
    while k < to
        invariant
            from <= k <= to <= s@.len(),
            forall|m: int| from <= m < k ==> #[trigger] s@[m] == '0',
        decreases to - k,
    {
        let c = s.get_char(k);
        if c != '0' {
            assert(s@.subrange(from as int, to as int)[k - from] == c);
            return false;
        }
        k = k + 1;
    }
    proof {
        let sub = s@.subrange(from as int, to as int);
        assert forall|m: int| 0 <= m < sub.len() implies #[trigger] sub[m] == '0' by {
            assert(sub[m] == s@[from + m]);
        }
    }
    true
}

/// Position of the first `.` in `s`, if any.
fn first_dot(s: &str) -> (r: Option<usize>)
    ensures
        match r {
            Some(p) => p < s@.len() && s@[p as int] == '.' && forall|k: int|
                0 <= k < p ==> #[trigger] s@[k] != '.',
            None => forall|k: int| 0 <= k < s@.len() ==> #[trigger] s@[k] != '.',
        },
{
    let n = s.unicode_len();
    let mut k: usize = 0;
    while k < n
        invariant
            n == s@.len(),
            k <= n,
            forall|m: int| 0 <= m < k ==> #[trigger] s@[m] != '.',
        decreases n - k,
    {
        if s.get_char(k) == '.' {
            return Some(k);
        }
        k = k + 1;
    }
    None
}

/// Whether `value` is a strictly positive decimal amount with at most seven
/// fractional digits (surrounding white space ignored).
pub fn is_valid_reward_amount(value: &str) -> (b: bool)
    ensures
        b == reward_amount_ok(value@),
{
    let t = trim_str(value);
    let n = t.unicode_len();
    if n == 0 {
        proof {
            assert forall|p: int| !decimal_split_at(t@, p) by {}
        }
        return false;
    }
    match first_dot(t) {
        None => {
            let ok = digits_only(t, 0, n) && !zeros_only(t, 0, n);
            proof {
                assert(t@.subrange(0, n as int) =~= t@);
                assert forall|p: int| !decimal_split_at(t@, p) by {
                    if 0 < p < t@.len() - 1 {
                        assert(t@[p] != '.');
                    }
                }
            }
            ok
        },
        Some(p) => {
            let whole_ok = p > 0 && digits_only(t, 0, p);
            let frac_ok = p + 1 < n && n - p - 1 <= 7 && digits_only(t, p + 1, n);
            let ok = whole_ok && frac_ok && !(zeros_only(t, 0, p) && zeros_only(t, p + 1, n));
            proof {
                // `t` has a dot, so it is not all digits
                assert(!all_digits(t@)) by {
                    assert(t@[p as int] == '.');
                }
                assert forall|q: int| #[trigger] decimal_split_at(t@, q) implies q == p by {
                    if q < p {
                        assert(t@[q] != '.');
                    } else if q > p {
                        assert(t@.subrange(0, q)[p as int] == '.');
                    }
                }
                if ok {
                    assert(decimal_split_at(t@, p as int));
                }
            }
            ok
        },
    }
}

/// Number of bytes `c` takes in UTF-8.
fn char_utf8_len(c: char) -> (n: usize)
    ensures
        n == utf8_char_len(c),
{
    let u = c as u32;
    if u < 0x80 {
        1
    } else if u < 0x800 {
        2
    } else if u < 0x10000 {
        3
    } else {
        4
    }
}

proof fn lemma_utf8_len_prefix(s: Seq<char>, k: int)
    requires
        0 <= k < s.len(),
    ensures
        utf8_len(s.subrange(0, k + 1)) == utf8_len(s.subrange(0, k)) + utf8_char_len(s[k]),
{
    let a = s.subrange(0, k + 1);
    assert(a.drop_last() =~= s.subrange(0, k));
}

proof fn lemma_utf8_len_monotone(s: Seq<char>, k: int)
    requires
        0 <= k <= s.len(),
    ensures
        utf8_len(s.subrange(0, k)) <= utf8_len(s),
    decreases s.len() - k,
{
    if k == s.len() {
        assert(s.subrange(0, k) =~= s);
    } else {
        lemma_utf8_len_prefix(s, k);
        lemma_utf8_len_monotone(s, k + 1);
    }
}

/// Whether `value`, once trimmed, is non-empty and at most
/// [`SYMBOL_MAX_LENGTH`] bytes long.
pub fn is_valid_description_length(value: &str) -> (b: bool)
    ensures
        b == description_length_ok(value@),
{
    let t = trim_str(value);
    let n = t.unicode_len();
    if n == 0 {
        return false;
    }
    let mut total: usize = 0;
    let mut k: usize = 0;
    while k < n
        invariant
            n == t@.len(),
            t@ == trim(value@),
            k <= n,
            total == utf8_len(t@.subrange(0, k as int)),
            total <= SYMBOL_MAX_LENGTH,
        decreases n - k,
    {
        proof {
            lemma_utf8_len_prefix(t@, k as int);
        }
        total = total + char_utf8_len(t.get_char(k));
        if total > SYMBOL_MAX_LENGTH {
            proof {
                lemma_utf8_len_monotone(t@, k + 1);
            }
            return false;
        }
        k = k + 1;
    }
    proof {
        assert(t@.subrange(0, n as int) =~= t@);
    }
    true
}

/// A decimal amount is accepted whenever it has the shape
/// `digits.digits` (one to seven fractional digits) and is not zero: a
/// non-zero digit anywhere, before or after the dot, makes it positive.
pub proof fn law_positive_decimal_accepted(s: Seq<char>, p: int)
    requires
        0 < p < trim(s).len() - 1,
        trim(s)[p] == '.',
        forall|k: int| 0 <= k < trim(s).len() && k != p ==> '0' <= #[trigger] trim(s)[k] <= '9',
        trim(s).len() - p - 1 <= 7,
        exists|k: int| 0 <= k < trim(s).len() && k != p && #[trigger] trim(s)[k] != '0',
    ensures
        reward_amount_ok(s),
{
    let t = trim(s);
    let whole = t.subrange(0, p);
    let frac = t.subrange(p + 1, t.len() as int);
    assert forall|i: int| 0 <= i < whole.len() implies '0' <= #[trigger] whole[i] <= '9' by {
        assert(whole[i] == t[i]);
    }
    assert forall|i: int| 0 <= i < frac.len() implies '0' <= #[trigger] frac[i] <= '9' by {
        assert(frac[i] == t[p + 1 + i]);
    }
    let k = choose|k: int| 0 <= k < t.len() && k != p && #[trigger] t[k] != '0';
    if k < p {
        assert(whole[k] == t[k]);
        assert(!all_zeros(whole));
    } else {
        assert(frac[k - p - 1] == t[k]);
        assert(!all_zeros(frac));
    }
    assert(decimal_split_at(t, p));
}

/// A whole amount is accepted whenever it is a non-empty run of digits
/// that is not zero.
pub proof fn law_positive_integer_accepted(s: Seq<char>)
    requires
        trim(s).len() > 0,
        forall|k: int| 0 <= k < trim(s).len() ==> '0' <= #[trigger] trim(s)[k] <= '9',
        exists|k: int| 0 <= k < trim(s).len() && #[trigger] trim(s)[k] != '0',
    ensures
        reward_amount_ok(s),
{
    let t = trim(s);
    let k = choose|k: int| 0 <= k < t.len() && #[trigger] t[k] != '0';
    assert(!all_zeros(t));
}

/// A zero amount is refused, however it is written (`0`, `000`, `0.0`,
/// `0.0000000`, ...): an amount made only of zeros and dots is never
/// accepted.
pub proof fn law_zero_amount_refused(s: Seq<char>)
    requires
        forall|k: int| 0 <= k < trim(s).len() ==> #[trigger] trim(s)[k] == '0' || trim(s)[k] == '.',
    ensures
        !reward_amount_ok(s),
{
    let t = trim(s);
    if t.len() > 0 && all_digits(t) {
        assert forall|i: int| 0 <= i < t.len() implies #[trigger] t[i] == '0' by {
            assert('0' <= t[i] <= '9');
        }
    }
    assert forall|p: int| !decimal_split_at(t, p) by {
        if 0 < p < t.len() - 1 && t[p] == '.' && all_digits(t.subrange(0, p)) && all_digits(
            t.subrange(p + 1, t.len() as int),
        ) {
            let whole = t.subrange(0, p);
            let frac = t.subrange(p + 1, t.len() as int);
            assert forall|i: int| 0 <= i < whole.len() implies #[trigger] whole[i] == '0' by {
                assert(whole[i] == t[i]);
                assert('0' <= whole[i] <= '9');
            }
            assert forall|i: int| 0 <= i < frac.len() implies #[trigger] frac[i] == '0' by {
                assert(frac[i] == t[p + 1 + i]);
                assert('0' <= frac[i] <= '9');
            }
        }
    }
}

} // verus!
