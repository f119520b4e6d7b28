//! Decoding of keys written as pairs of hexadecimal digits.

use vstd::prelude::*;
use vstd::string::is_ascii_spec_bytes;
use vstd::utf8::is_ascii_chars;

verus! {

/// The value of a hexadecimal digit of either case, or -1.
pub open spec fn hex_value(c: char) -> int {
    let x = c as int;
    if 48 <= x <= 57 {
        x - 48
    } else if 97 <= x <= 102 {
        x - 87
    } else if 65 <= x <= 70 {
        x - 55
    } else {
        -1
    }
}

/// The byte that a pair of characters stands for, or -1. As in Rust's
/// parsing of unsigned integers, a leading `+` is allowed, so `+f` is 15.
pub open spec fn pair_value(a: char, b: char) -> int {
    if a as int == 43 {
        hex_value(b)
    } else if hex_value(a) >= 0 && hex_value(b) >= 0 {
        hex_value(a) * 16 + hex_value(b)
    } else {
        -1
    }
}

/// `s` is ASCII, of even length, and each of its pairs stands for a byte.
pub open spec fn hex_decodable(s: Seq<char>) -> bool {
    &&& is_ascii_chars(s)
    &&& s.len() % 2 == 0
    &&& forall|k: int| 0 <= k < s.len() / 2 ==> #[trigger] pair_value(s[2 * k], s[2 * k + 1]) >= 0
}

fn hex_digit(b: u8) -> (r: Option<u8>)
    ensures
        match r {
            Some(v) => hex_value(b as char) == v as int && v < 16,
            None => hex_value(b as char) == -1,
        },
{
    if 48 <= b && b <= 57 {
        Some(b - 48)
    } else if 97 <= b && b <= 102 {
        Some(b - 87)
    } else if 65 <= b && b <= 70 {
        Some(b - 55)
    } else {
        None
    }
}

fn hex_pair(a: u8, b: u8) -> (r: Option<u8>)
    ensures
        match r {
            Some(v) => pair_value(a as char, b as char) == v as int,
            None => pair_value(a as char, b as char) == -1,
        },
{
    if a == 43 {
        hex_digit(b)
    } else {
        match (hex_digit(a), hex_digit(b)) {
            (Some(hi), Some(lo)) => Some(hi * 16 + lo),
            _ => None,
        }
    }
}

/// Decodes a key written as hexadecimal digits, two to a byte; `None` for
/// text that is not ASCII, of odd length, or holds a pair that is no byte.
pub fn decode_hex(hex: &str) -> (r: Option<Vec<u8>>)
    ensures
        match r {
            Some(v) => hex_decodable(hex@) && v@.len() == hex@.len() / 2 && forall|k: int|
                0 <= k < v@.len() ==> v@[k] as int == #[trigger] pair_value(
                    hex@[2 * k],
                    hex@[2 * k + 1],
                ),
            None => !hex_decodable(hex@),
        },
{
    broadcast use is_ascii_spec_bytes;

    if !hex.is_ascii() {
        return None;
    }
    let bytes = hex.as_bytes();
    let ghost s = hex@;
    proof {
        vstd::utf8::is_ascii_chars_encode_utf8(s);
    }
    if bytes.len() % 2 != 0 {
        return None;
    }
    let n = bytes.len() / 2;
    let mut out: Vec<u8> = Vec::new();
    let mut k: usize = 0;
    while k < n
        invariant
            s == hex@,
            is_ascii_chars(s),
            bytes@.len() == s.len(),
            s.len() == 2 * n,
            bytes@.len() <= usize::MAX,
            forall|j: int| 0 <= j < s.len() ==> bytes@[j] == #[trigger] s[j] as u8,
            k <= n,
            out@.len() == k,
            forall|j: int| 0 <= j < k ==> out@[j] as int == #[trigger] pair_value(s[2 * j], s[2 * j + 1]),
        decreases n - k,
    {
        assert(2 * k + 1 < bytes@.len());
        let a = bytes[2 * k];
        let b = bytes[2 * k + 1];
        assert(a as char == s[2 * k as int] && b as char == s[2 * k + 1]) by {
            assert(s[2 * k as int] as int <= 127);
            assert(s[2 * k + 1] as int <= 127);
        }
        match hex_pair(a, b) {
            Some(v) => out.push(v),
            None => {
                assert(pair_value(s[2 * (k as int)], s[2 * (k as int) + 1]) < 0);
                return None;
            },
        }
        k = k + 1;
    }
    assert(hex_decodable(s)) by {
        assert forall|j: int| 0 <= j < s.len() / 2 implies #[trigger] pair_value(
            s[2 * j],
            s[2 * j + 1],
        ) >= 0 by {
            assert(out@[j] as int == pair_value(s[2 * j], s[2 * j + 1]));
        }
    }
    Some(out)
}

} // verus!
