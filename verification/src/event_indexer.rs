//! Bounty-id extraction from raw contract event values: the id is a 32-byte
//! value, carried either alone or as the first element of a tuple, and is
//! reported as lowercase hex.
use vstd::prelude::*;

verus! {

/// A contract value as it appears in event data.
#[derive(Debug)]
pub enum ScVal {
    Void,
    Bool(bool),
    U32(u32),
    I32(i32),
    U64(u64),
    I64(i64),
    Bytes(Vec<u8>),
    Symbol(String),
    Vec(Option<Vec<ScVal>>),
}

/// Number of bytes in a bounty id.
pub const BOUNTY_ID_LEN: usize = 32;

/// The lowercase hex digit for `n` (`n < 16`).
pub open spec fn hex_digit(n: u8) -> char {
    if n < 10 {
        (48 + n) as char
    } else {
        (87 + n) as char
    }
}

/// The lowercase hex rendering of `bytes`, two digits per byte.
pub open spec fn hex_of(bytes: Seq<u8>) -> Seq<char>
    decreases bytes.len(),
{
    if bytes.len() == 0 {
        Seq::empty()
    } else {
        let b = bytes.last();
        hex_of(bytes.drop_last()).push(hex_digit(b / 16)).push(hex_digit(b % 16))
    }
}

/// The bounty id carried by `v`, if any: a 32-byte value alone, or as the
/// first element of a tuple.
pub open spec fn carried_id(v: ScVal) -> Option<Seq<u8>> {
    match v {
        ScVal::Bytes(b) => if b@.len() == BOUNTY_ID_LEN {
            Some(b@)
        } else {
            None
        },
        ScVal::Vec(Some(items)) => if items@.len() > 0 {
            match items@[0] {
                ScVal::Bytes(b) => if b@.len() == BOUNTY_ID_LEN {
                    Some(b@)
                } else {
                    None
                },
                _ => None,
            }
        } else {
            None
        },
        _ => None,
    }
}

fn hex_digit_str(n: u8) -> (s: &'static str)
    requires
        n < 16,
    ensures
        s@ == seq![hex_digit(n)],
{
    proof {
        reveal_strlit("0");
        reveal_strlit("1");
        reveal_strlit("2");
        reveal_strlit("3");
        reveal_strlit("4");
        reveal_strlit("5");
        reveal_strlit("6");
        reveal_strlit("7");
        reveal_strlit("8");
        reveal_strlit("9");
        reveal_strlit("a");
        reveal_strlit("b");
        reveal_strlit("c");
        reveal_strlit("d");
        reveal_strlit("e");
        reveal_strlit("f");
    }
    let s = match n {
        0 => "0",
        1 => "1",
        2 => "2",
        3 => "3",
        4 => "4",
        5 => "5",
        6 => "6",
        7 => "7",
        8 => "8",
        9 => "9",
        10 => "a",
        11 => "b",
        12 => "c",
        13 => "d",
        14 => "e",
        _ => "f",
    };
    assert(s@ =~= seq![hex_digit(n)]);
    s
}

/// The lowercase hex rendering of `bytes`.
pub fn to_hex(bytes: &Vec<u8>) -> (h: String)
    ensures
        h@ == hex_of(bytes@),
{
    let mut out = String::new();
    let mut i: usize = 0;
    while i < bytes.len()
        invariant
            i <= bytes@.len(),
            out@ == hex_of(bytes@.take(i as int)),
        decreases bytes@.len() - i,
    {
        let b = bytes[i];
        out.append(hex_digit_str(b / 16));
        out.append(hex_digit_str(b % 16));
        proof {
            let p = bytes@.take(i as int + 1);
            assert(p.drop_last() =~= bytes@.take(i as int));
            assert(p.last() == b);
        }
        assert(out@ =~= hex_of(bytes@.take(i as int + 1)));
        i = i + 1;
    }
    assert(bytes@.take(i as int) =~= bytes@);
    out
}

/// The bounty id carried by `v` as lowercase hex, or none when `v` carries
/// no 32-byte id.
pub fn extract_bounty_id_hex(v: &ScVal) -> (r: Option<String>)
    ensures
        carried_id(*v) is None ==> r is None,
        carried_id(*v) matches Some(id) ==> (r matches Some(h) && h@ == hex_of(id)),
{
    match v {
        ScVal::Bytes(b) => if b.len() == BOUNTY_ID_LEN {
            Some(to_hex(b))
        } else {
            None
        },
        ScVal::Vec(Some(items)) => if items.len() > 0 {
            match &items[0] {
                ScVal::Bytes(b) => if b.len() == BOUNTY_ID_LEN {
                    Some(to_hex(b))
                } else {
                    None
                },
                _ => None,
            }
        } else {
            None
        },
        _ => None,
    }
}

} // verus!
