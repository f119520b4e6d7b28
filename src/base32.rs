//! Decoding of unpadded RFC 4648 Base32 text into bytes.
//!
//! The bit stream of a Base32 text is modelled as one natural number: each
//! symbol adds five bits at the low end (`symbols_value`). The decoded bytes
//! are the leading whole bytes of that stream, read big-endian; trailing bits
//! that do not fill a byte are dropped.

use vstd::arithmetic::div_mod::lemma_fundamental_div_mod_converse;
use vstd::arithmetic::power2::{lemma2_to64, lemma_pow2_adds, lemma_pow2_pos, pow2};
use vstd::prelude::*;
use vstd::string::is_ascii_spec_bytes;
use vstd::utf8::is_ascii_chars;

verus! {

/// Why a text is not Base32.
#[derive(Debug, Clone, Copy, PartialEq, Eq, Structural)]
pub enum Base32Error {
    /// The text holds a character outside ASCII.
    NonAsciiInput,
    /// The text is ASCII but holds a character outside `[A-Za-z2-7]`.
    InvalidAlphabetCharacter,
}

/// The five-bit value of a Base32 symbol (either case), or -1 for a
/// character outside the alphabet.
pub open spec fn symbol_value(c: char) -> int {
    let x = c as int;
    if 65 <= x <= 90 {
        x - 65
    } else if 97 <= x <= 122 {
        x - 97
    } else if 50 <= x <= 55 {
        x - 50 + 26
    } else {
        -1
    }
}

pub open spec fn is_symbol(c: char) -> bool {
    symbol_value(c) >= 0
}

pub open spec fn all_symbols(s: Seq<char>) -> bool {
    forall|i: int| 0 <= i < s.len() ==> is_symbol(#[trigger] s[i])
}

/// `u` is the ASCII upper case of `c`: `a`..`z` move to `A`..`Z`, every
/// other character stays.
pub open spec fn is_ascii_upper_of(c: char, u: char) -> bool {
    if 97 <= c as int <= 122 {
        u as int == c as int - 32
    } else {
        u == c
    }
}

pub open spec fn is_ascii_upper_seq(s: Seq<char>, u: Seq<char>) -> bool {
    &&& u.len() == s.len()
    &&& forall|i: int| 0 <= i < s.len() ==> is_ascii_upper_of(#[trigger] s[i], u[i])
}

/// The bit stream of a text of symbols, as a number: five bits per symbol,
/// the first symbol in the highest bits.
pub open spec fn symbols_value(s: Seq<char>) -> nat
    decreases s.len(),
{
    if s.len() == 0 {
        0
    } else {
        symbols_value(s.drop_last()) * 32 + symbol_value(s.last()) as nat
    }
}

/// The lowest `m` bytes of `v`, most significant first.
pub open spec fn bytes_of(v: nat, m: nat) -> Seq<u8>
    decreases m,
{
    if m == 0 {
        Seq::empty()
    } else {
        bytes_of(v / 256, (m - 1) as nat).push((v % 256) as u8)
    }
}

/// The number of whole bytes in the bit stream of `n` symbols.
pub open spec fn decoded_len(n: nat) -> nat {
    n * 5 / 8
}

/// The bytes that a text of symbols decodes to: the whole bytes at the
/// start of its bit stream.
pub open spec fn base32_bytes(s: Seq<char>) -> Seq<u8> {
    let m = decoded_len(s.len());
    bytes_of(symbols_value(s) / pow2((s.len() * 5 - m * 8) as nat), m)
}

/// Why `s` cannot be decoded, if it cannot: non-ASCII text first, then a
/// character outside the alphabet.
pub open spec fn base32_error(s: Seq<char>) -> Option<Base32Error> {
    if !is_ascii_chars(s) {
        Some(Base32Error::NonAsciiInput)
    } else if !all_symbols(s) {
        Some(Base32Error::InvalidAlphabetCharacter)
    } else {
        None
    }
}

impl Base32Error {
    pub open spec fn message_spec(self) -> Seq<char> {
        match self {
            Base32Error::NonAsciiInput => "Invalid base32 value: non ascii characters"@,
            Base32Error::InvalidAlphabetCharacter => "Invalid base32 value: characters out of range"@,
        }
    }

    /// A message for the user that says what is wrong with the text.
    pub fn message(&self) -> (r: String)
        ensures
            r@ == self.message_spec(),
    {
        match self {
            Base32Error::NonAsciiInput => String::from_str("Invalid base32 value: non ascii characters"),
            Base32Error::InvalidAlphabetCharacter => String::from_str(
                "Invalid base32 value: characters out of range",
            ),
        }
    }
}

/// The value of the symbol whose ASCII code is `b`, if it is one: `A`..`Z`
/// are 65..90, `a`..`z` 97..122 and `2`..`7` 50..55.
fn symbol_of_byte(b: u8) -> (r: Option<u8>)
    ensures
        match r {
            Some(v) => symbol_value(b as char) == v as int && v < 32,
            None => symbol_value(b as char) == -1,
        },
{
    if 65 <= b && b <= 90 {
        Some(b - 65)
    } else if 97 <= b && b <= 122 {
        Some(b - 97)
    } else if 50 <= b && b <= 55 {
        Some(b - 50 + 26)
    } else {
        None
    }
}

/// Appending a symbol of value `v` to a stream whose lowest `b` bits are
/// `buffer` shifts the stream left by five and leaves
/// `buffer * 32 + v` as its lowest `b + 5` bits; when those are at least a
/// byte, the byte above the lowest `b - 3` bits is the next one to emit.
proof fn lemma_push_symbol(s: nat, b: nat, buffer: nat, v: nat)
    requires
        b < 8,
        v < 32,
        buffer == s % pow2(b),
    ensures
        (s * 32 + v) / pow2(b + 5) == s / pow2(b),
        (s * 32 + v) % pow2(b + 5) == buffer * 32 + v,
        b >= 3 ==> ({
            let b2 = (b - 3) as nat;
            let r = buffer * 32 + v;
            &&& (s * 32 + v) / pow2(b2) / 256 == s / pow2(b)
            &&& (s * 32 + v) / pow2(b2) % 256 == r / pow2(b2)
            &&& (s * 32 + v) % pow2(b2) == r % pow2(b2)
        }),
{
    lemma2_to64();
    lemma_pow2_pos(b);
    lemma_pow2_adds(b, 5);
    let q = s / pow2(b);
    let r = buffer * 32 + v;
    let p = pow2(b);
    vstd::arithmetic::div_mod::lemma_fundamental_div_mod(s as int, p as int);
    assert(s == q * p + buffer);
    assert(r < p * 32) by (nonlinear_arith)
        requires
            buffer < p,
            v < 32,
            r == buffer * 32 + v,
    ;
    assert(s * 32 + v == q * (p * 32) + r) by (nonlinear_arith)
        requires
            s == q * p + buffer,
            r == buffer * 32 + v,
    ;
    lemma_fundamental_div_mod_converse((s * 32 + v) as int, (p * 32) as int, q as int, r as int);
    if b >= 3 {
        let b2 = (b - 3) as nat;
        let p2 = pow2(b2);
        lemma_pow2_pos(b2);
        lemma_pow2_adds(b2, 8);
        assert(b2 + 8 == b + 5);
        assert(p * 32 == p2 * 256);
        let rq = r / p2;
        let rr = r % p2;
        vstd::arithmetic::div_mod::lemma_fundamental_div_mod(r as int, p2 as int);
        assert(rq < 256) by (nonlinear_arith)
            requires
                r == rq * p2 + rr,
                0 <= rr,
                r < p2 * 256,
                p2 > 0,
        ;
        assert(s * 32 + v == (q * 256 + rq) * p2 + rr) by (nonlinear_arith)
            requires
                s * 32 + v == q * (p2 * 256) + r,
                r == rq * p2 + rr,
        ;
        lemma_fundamental_div_mod_converse(
            (s * 32 + v) as int,
            p2 as int,
            (q * 256 + rq) as int,
            rr as int,
        );
        lemma_fundamental_div_mod_converse((q * 256 + rq) as int, 256, q as int, rq as int);
    }
}

/// Decodes unpadded Base32 text, in either case, into bytes.
///
/// Fails with `NonAsciiInput` on text that is not ASCII, and otherwise with
/// `InvalidAlphabetCharacter` where a character is outside `[A-Za-z2-7]`;
/// there is no partial result. Trailing bits that do not fill a byte are
/// dropped, so the empty text decodes to no bytes.
pub fn decode_base32(encoded: &str) -> (r: Result<Vec<u8>, Base32Error>)
    ensures
        match r {
            Ok(v) => base32_error(encoded@) is None && v@ == base32_bytes(encoded@),
            Err(e) => base32_error(encoded@) == Some(e),
        },
{
    broadcast use is_ascii_spec_bytes;

    if !encoded.is_ascii() {
        return Err(Base32Error::NonAsciiInput);
    }
    let bytes = encoded.as_bytes();
    let ghost s = encoded@;
    proof {
        vstd::utf8::is_ascii_chars_encode_utf8(s);
        lemma2_to64();
    }
    assert(bytes@.len() == s.len());
    let n = bytes.len();
    let mut decoded: Vec<u8> = Vec::new();
    // The stream's bits that are not yet in `decoded`: `bits` of them, with
    // value `buffer`, and `unit` is two to the power `bits`.
    let mut buffer: u32 = 0;
    let mut bits: usize = 0;
    let mut unit: u32 = 1;
    let mut i: usize = 0;
    while i < n
        invariant
            n == bytes@.len(),
            n == s.len(),
            s == encoded@,
            is_ascii_chars(s),
            forall|j: int| 0 <= j < n ==> bytes@[j] == #[trigger] s[j] as u8,
            i <= n,
            all_symbols(s.take(i as int)),
            bits < 8,
            i * 5 == decoded@.len() * 8 + bits,
            unit == pow2(bits as nat),
            buffer == symbols_value(s.take(i as int)) % pow2(bits as nat),
            decoded@ == bytes_of(
                symbols_value(s.take(i as int)) / pow2(bits as nat),
                decoded@.len() as nat,
            ),
        decreases n - i,
    {
        proof {
            lemma2_to64();
        }
        let c = bytes[i];
        assert(c as char == s[i as int]) by {
            assert(s[i as int] as int <= 127);
        }
        let v = match symbol_of_byte(c) {
            Some(v) => v,
            None => {
                assert(!is_symbol(s[i as int]));
                assert(!all_symbols(s));
                return Err(Base32Error::InvalidAlphabetCharacter);
            },
        };
        let ghost prefix = s.take(i as int);
        let ghost next = s.take(i as int + 1);
        let ghost sv = symbols_value(prefix);
        assert(next.drop_last() == prefix);
        assert(next.last() == s[i as int]);
        assert(symbols_value(next) == sv * 32 + v as nat);
        assert(all_symbols(next)) by {
            assert forall|j: int| 0 <= j < next.len() implies is_symbol(#[trigger] next[j]) by {
                if j < i {
                    assert(next[j] == prefix[j]);
                }
            }
        }
        proof {
            lemma_push_symbol(sv, bits as nat, buffer as nat, v as nat);
            lemma_pow2_adds(bits as nat, 5);
        }
        assert(buffer < unit) by {
            lemma_pow2_pos(bits as nat);
        }
        assert(unit <= 128) by {
            if bits < 7 {
                vstd::arithmetic::power2::lemma_pow2_strictly_increases(bits as nat, 7);
            }
        }
        buffer = buffer * 32 + v as u32;
        unit = unit * 32;
        if bits + 5 >= 8 {
            let ghost b2 = (bits - 3) as nat;
            proof {
                lemma_pow2_adds(b2, 8);
                assert(b2 + 8 == bits + 5);
            }
            assert(unit == pow2(b2) * 256);
            proof {
                lemma_pow2_pos(b2);
            }
            bits = bits - 3;
            unit = unit / 256;
            assert(unit == pow2(b2));
            let byte = (buffer / unit) as u8;
            assert(buffer / unit < 256) by {
                assert(buffer < unit * 256);
                vstd::arithmetic::div_mod::lemma_div_by_multiple_is_strongly_ordered(
                    buffer as int, (unit * 256) as int, 256, unit as int);
            }
            buffer = buffer % unit;
            decoded.push(byte);
            proof {
                let m = decoded@.len();
                let x = symbols_value(next) / pow2(bits as nat);
                assert(decoded@ == bytes_of(x, m as nat)) by {
                    assert(bytes_of(x, m as nat) == bytes_of(x / 256, (m - 1) as nat).push(
                        (x % 256) as u8,
                    ));
                }
            }
        } else {
            bits = bits + 5;
        }
        i = i + 1;
    }
    assert(s.take(n as int) == s);
    Ok(decoded)
}

/// Decodes unpadded Base32 text, in either case, into bytes; `None` where
/// `decode_base32` fails.
pub fn base32decode(encoded: &str) -> (r: Option<Vec<u8>>)
    ensures
        match r {
            Some(v) => base32_error(encoded@) is None && v@ == base32_bytes(encoded@),
            None => base32_error(encoded@) is Some,
        },
{
    match decode_base32(encoded) {
        Ok(v) => Some(v),
        Err(_) => None,
    }
}

/// Relies on `str::to_ascii_uppercase`: `a`..`z` become `A`..`Z`, every
/// other character is kept.
#[verifier::external_body]
fn ascii_uppercase(s: &str) -> (r: String)
    ensures
        is_ascii_upper_seq(s@, r@),
{
    s.to_ascii_uppercase()
}

/// Checks that text is Base32 without decoding it, and returns it in upper
/// case; on failure, the message of the `Base32Error` that `decode_base32`
/// would give.
pub fn validate_base32(raw_input: &str) -> (r: Result<String, String>)
    ensures
        match r {
            Ok(u) => base32_error(raw_input@) is None && is_ascii_upper_seq(raw_input@, u@),
            Err(m) => base32_error(raw_input@) is Some && m@ == base32_error(
                raw_input@,
            )->0.message_spec(),
        },
{
    broadcast use is_ascii_spec_bytes;

    if !raw_input.is_ascii() {
        return Err(Base32Error::NonAsciiInput.message());
    }
    let uppercase = ascii_uppercase(raw_input);
    let ghost s = raw_input@;
    let ghost u = uppercase@;
    assert(is_ascii_chars(u)) by {
        assert forall|j: int| 0 <= j < u.len() implies '\0' <= #[trigger] u[j] <= '\u{7f}' by {
            assert(is_ascii_upper_of(s[j], u[j]));
            assert(u[j] as int <= 127);
        }
    }
    let text = uppercase.as_str();
    let bytes = text.as_bytes();
    proof {
        vstd::utf8::is_ascii_chars_encode_utf8(u);
    }
    let n = bytes.len();
    let mut i: usize = 0;
    while i < n
        invariant
            n == bytes@.len(),
            n == u.len(),
            u.len() == s.len(),
            s == raw_input@,
            is_ascii_chars(s),
            is_ascii_upper_seq(s, u),
            is_ascii_chars(u),
            forall|j: int| 0 <= j < n ==> bytes@[j] == #[trigger] u[j] as u8,
            i <= n,
            forall|j: int| 0 <= j < i ==> is_symbol(#[trigger] s[j]),
        decreases n - i,
    {
        let b = bytes[i];
        assert(is_ascii_upper_of(s[i as int], u[i as int]));
        assert(b as int == u[i as int] as int) by {
            assert(u[i as int] as int <= 127);
        }
        if !((65 <= b && b <= 90) || (50 <= b && b <= 55)) {
            assert(!is_symbol(s[i as int]));
            assert(!all_symbols(s));
            return Err(Base32Error::InvalidAlphabetCharacter.message());
        }
        i = i + 1;
    }
    assert(all_symbols(s));
    Ok(uppercase)
}

proof fn lemma_symbols_value_ignores_case(s: Seq<char>, u: Seq<char>)
    requires
        all_symbols(s),
        is_ascii_upper_seq(s, u),
    ensures
        all_symbols(u),
        symbols_value(s) == symbols_value(u),
    decreases s.len(),
{
    assert forall|i: int| 0 <= i < u.len() implies #[trigger] symbol_value(u[i]) == symbol_value(
        s[i],
    ) by {
        assert(is_symbol(s[i]));
        assert(is_ascii_upper_of(s[i], u[i]));
    }
    if s.len() > 0 {
        let s0 = s.drop_last();
        let u0 = u.drop_last();
        assert forall|i: int| 0 <= i < s0.len() implies is_symbol(#[trigger] s0[i]) by {
            assert(s0[i] == s[i]);
        }
        assert forall|i: int| 0 <= i < s0.len() implies is_ascii_upper_of(
            #[trigger] s0[i],
            u0[i],
        ) by {
            assert(s0[i] == s[i]);
            assert(u0[i] == u[i]);
        }
        lemma_symbols_value_ignores_case(s0, u0);
        assert(symbol_value(u[u.len() - 1]) == symbol_value(s[s.len() - 1]));
    }
    assert forall|i: int| 0 <= i < u.len() implies is_symbol(#[trigger] u[i]) by {
        assert(symbol_value(u[i]) == symbol_value(s[i]));
        assert(is_symbol(s[i]));
    }
}

/// Decoding does not depend on case: a text made of Base32 symbols, in any
/// mix of cases, decodes to the same bytes as its upper case.
pub proof fn lemma_decode_ignores_case(s: Seq<char>, u: Seq<char>)
    requires
        all_symbols(s),
        is_ascii_upper_seq(s, u),
    ensures
        base32_error(s) is None,
        base32_error(u) is None,
        base32_bytes(s) == base32_bytes(u),
{
    lemma_symbols_value_ignores_case(s, u);
    lemma_symbols_are_ascii(s);
    lemma_symbols_are_ascii(u);
}

proof fn lemma_symbols_are_ascii(s: Seq<char>)
    requires
        all_symbols(s),
    ensures
        is_ascii_chars(s),
{
    assert forall|i: int| 0 <= i < s.len() implies '\0' <= #[trigger] s[i] <= '\u{7f}' by {
        assert(is_symbol(s[i]));
        assert(s[i] as int <= 127);
    }
}

/// A text that is ASCII and holds a character outside the alphabet is
/// refused as such, whatever else it holds.
pub proof fn lemma_foreign_symbol_refused(s: Seq<char>, i: int)
    requires
        is_ascii_chars(s),
        0 <= i < s.len(),
        !is_symbol(s[i]),
    ensures
        base32_error(s) == Some(Base32Error::InvalidAlphabetCharacter),
{
}

/// A text that is not ASCII is refused as such, whatever else it holds.
pub proof fn lemma_non_ascii_refused(s: Seq<char>, i: int)
    requires
        0 <= i < s.len(),
        s[i] as int > 127,
    ensures
        base32_error(s) == Some(Base32Error::NonAsciiInput),
{
}

} // verus!
