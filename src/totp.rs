//! Time-based one-time passcodes (RFC 6238) over HMAC-SHA1.
//!
//! A code is the dynamic truncation (RFC 4226) of the HMAC-SHA1 tag of the
//! time-step index, taken modulo a power of ten. The tag itself comes from
//! the `hmac` and `sha1` crates and is named here by `hmac_sha1`.

use hmac::{Hmac, Mac};
use sha1::Sha1;
use std::time::{SystemTime, UNIX_EPOCH};
use vstd::prelude::*;

verus! {

/// The time-step size that codes use unless told otherwise, in seconds.
pub const DEFAULT_TIME_STEP: u64 = 30;

/// The number of digits that codes have unless told otherwise.
pub const DEFAULT_DIGITS: u8 = 6;

/// The most digits a code can have: the truncated value has 31 bits, so a
/// tenth digit would carry no information.
pub const MAX_DIGITS: u8 = 9;

/// The largest time-step size, in seconds, whose remaining seconds fit the
/// `u8` that reports them.
pub const MAX_TIME_STEP: u64 = 255;

/// Why no code could be computed.
#[derive(Debug, Clone, Copy, PartialEq, Eq, Structural)]
pub enum TotpError {
    /// The system clock reads a time before the Unix epoch.
    ClockBeforeEpoch,
}

/// The HMAC-SHA1 tag of `msg` under `key`.
pub uninterp spec fn hmac_sha1(key: Seq<u8>, msg: Seq<u8>) -> Seq<u8>;

/// Relies on `hmac::Hmac<sha1::Sha1>`: `new_from_slice` takes a key of any
/// length (longer keys are hashed, shorter ones padded), and `finalize`
/// gives the 20-byte tag of what `update` was fed.
#[verifier::external_body]
fn hmac_sha1_tag(key: &[u8], msg: &[u8]) -> (r: Vec<u8>)
    ensures
        r@ == hmac_sha1(key@, msg@),
        r@.len() == 20,
{
    let mut mac = <Hmac<Sha1> as Mac>::new_from_slice(key).expect("HMAC accepts any key length");
    mac.update(msg);
    mac.finalize().into_bytes().to_vec()
}

pub open spec fn pow10(n: nat) -> nat
    decreases n,
{
    if n == 0 {
        1
    } else {
        10 * pow10((n - 1) as nat)
    }
}

/// The eight bytes of `t`, most significant first.
pub open spec fn be_bytes(t: u64) -> Seq<u8> {
    seq![
        (t >> 56) as u8,
        (t >> 48) as u8,
        (t >> 40) as u8,
        (t >> 32) as u8,
        (t >> 24) as u8,
        (t >> 16) as u8,
        (t >> 8) as u8,
        t as u8,
    ]
}

/// The 31-bit value that dynamic truncation picks from a 20-byte tag: the
/// low four bits of the last byte give an offset, and the four bytes from
/// there, big-endian, with the top bit cleared.
pub open spec fn truncated_value(d: Seq<u8>) -> nat {
    let o = (d[19] % 16) as int;
    (d[o] % 128) as nat * 0x100_0000 + d[o + 1] as nat * 0x1_0000 + d[o + 2] as nat * 0x100
        + d[o + 3] as nat
}

/// The code of `digits` decimal digits that a 20-byte tag gives.
pub open spec fn hotp_code(d: Seq<u8>, digits: nat) -> nat {
    truncated_value(d) % pow10(digits)
}

/// The code for time-step index `step_index` under `key`.
pub open spec fn totp_code(key: Seq<u8>, step_index: u64, digits: nat) -> nat {
    hotp_code(hmac_sha1(key, be_bytes(step_index)), digits)
}

/// The index of the time step that Unix time `t` falls in.
pub open spec fn step_index(t: u64, step: u64) -> u64
    recommends
        step > 0,
{
    (t / step) as u64
}

/// The seconds from Unix time `t` to the end of its time step, `t` itself
/// counted.
pub open spec fn seconds_left(t: nat, step: nat) -> nat
    recommends
        step > 0,
{
    (step - t % step) as nat
}

fn big_endian_bytes(t: u64) -> (r: Vec<u8>)
    ensures
        r@ == be_bytes(t),
{
    let r = vec![
        (t >> 56) as u8,
        (t >> 48) as u8,
        (t >> 40) as u8,
        (t >> 32) as u8,
        (t >> 24) as u8,
        (t >> 16) as u8,
        (t >> 8) as u8,
        t as u8,
    ];
    assert(r@ == be_bytes(t));
    r
}

fn pow10_u32(n: u8) -> (r: u32)
    requires
        n <= MAX_DIGITS,
    ensures
        r == pow10(n as nat),
        r > 0,
{
    proof {
        reveal_with_fuel(pow10, 10);
    }
    match n {
        0 => 1,
        1 => 10,
        2 => 100,
        3 => 1000,
        4 => 10000,
        5 => 100000,
        6 => 1000000,
        7 => 10000000,
        8 => 100000000,
        _ => 1000000000,
    }
}

/// Dynamic truncation of a 20-byte HMAC-SHA1 tag to a code of `digits`
/// decimal digits.
pub fn truncate_digest(digest: &[u8], digits: u8) -> (r: u32)
    requires
        digest@.len() == 20,
        digits <= MAX_DIGITS,
    ensures
        r == hotp_code(digest@, digits as nat),
{
    let offset = (digest[19] % 16) as usize;
    let truncated: u32 = ((digest[offset] % 128) as u32) * 0x100_0000 + (digest[offset + 1] as u32)
        * 0x1_0000 + (digest[offset + 2] as u32) * 0x100 + (digest[offset + 3] as u32);
    truncated % pow10_u32(digits)
}

/// The code for the time step with index `time` under `key`.
fn token_from_time(key: &[u8], time: u64, digits: u8) -> (r: u32)
    requires
        digits <= MAX_DIGITS,
    ensures
        r == totp_code(key@, time, digits as nat),
{
    let msg = big_endian_bytes(time);
    let tag = hmac_sha1_tag(key, msg.as_slice());
    truncate_digest(tag.as_slice(), digits)
}

/// The index of the time step that Unix time `secs` falls in, and the
/// seconds left in it.
pub fn time_steps_at(secs: u64, time_step_size: u64) -> (r: (u64, u8))
    requires
        0 < time_step_size <= MAX_TIME_STEP,
    ensures
        r.0 == step_index(secs, time_step_size),
        r.1 == seconds_left(secs as nat, time_step_size as nat),
        0 < r.1 <= time_step_size,
{
    let current_time_step = secs / time_step_size;
    let secs_left = time_step_size - secs % time_step_size;
    (current_time_step, secs_left as u8)
}

/// The code at Unix time `secs` under `key`, and the seconds that it stays
/// valid.
pub fn token_at(key: &[u8], secs: u64, time_step_size: u64, digits: u8) -> (r: (u32, u8))
    requires
        0 < time_step_size <= MAX_TIME_STEP,
        digits <= MAX_DIGITS,
    ensures
        r.0 == totp_code(key@, step_index(secs, time_step_size), digits as nat),
        r.1 == seconds_left(secs as nat, time_step_size as nat),
        r.0 < pow10(digits as nat),
        digits == 6 ==> r.0 <= 999999,
        0 < r.1 <= time_step_size,
{
    let (time_steps, time_left) = time_steps_at(secs, time_step_size);
    let token = token_from_time(key, time_steps, digits);
    proof {
        lemma_code_below_modulus(key@, time_steps, digits as nat);
    }
    (token, time_left)
}

#[verifier::external_type_specification]
#[verifier::external_body]
pub struct ExSystemTime(SystemTime);

/// Relies on `SystemTime::now`: a reading of the system clock; nothing is
/// known of its value.
#[verifier::external_body]
fn clock_now() -> (r: SystemTime) {
    SystemTime::now()
}

/// Relies on `SystemTime::duration_since(UNIX_EPOCH)`: the whole seconds
/// since the epoch, or `None` where `t` is earlier; nothing is known of the
/// value.
#[verifier::external_body]
fn seconds_since_epoch(t: &SystemTime) -> (r: Option<u64>) {
    t.duration_since(UNIX_EPOCH).ok().map(|d| d.as_secs())
}

/// The index of the current time step and the seconds left in it, from a
/// fresh reading of the clock.
pub fn get_current_time_steps(time_step_size: u64) -> (r: Result<(u64, u8), TotpError>)
    requires
        0 < time_step_size <= MAX_TIME_STEP,
    ensures
        r is Ok ==> exists|t: u64|
            r->Ok_0.0 == step_index(t, time_step_size) && r->Ok_0.1 == seconds_left(
                t as nat,
                time_step_size as nat,
            ),
        r is Ok ==> 0 < r->Ok_0.1 <= time_step_size,
{
    let now = clock_now();
    match seconds_since_epoch(&now) {
        Some(secs) => Ok(time_steps_at(secs, time_step_size)),
        None => Err(TotpError::ClockBeforeEpoch),
    }
}

/// The current code under `key` and the seconds that it stays valid, from a
/// fresh reading of the clock.
pub fn get_current_token(key: &[u8], time_step_size: u64, digits: u8) -> (r: Result<
    (u32, u8),
    TotpError,
>)
    requires
        0 < time_step_size <= MAX_TIME_STEP,
        digits <= MAX_DIGITS,
    ensures
        r is Ok ==> exists|t: u64|
            r->Ok_0.0 == totp_code(key@, step_index(t, time_step_size), digits as nat)
                && r->Ok_0.1 == seconds_left(t as nat, time_step_size as nat),
        r is Ok ==> r->Ok_0.0 < pow10(digits as nat),
        r is Ok && digits == 6 ==> r->Ok_0.0 <= 999999,
        r is Ok ==> 0 < r->Ok_0.1 <= time_step_size,
{
    let now = clock_now();
    match seconds_since_epoch(&now) {
        Some(secs) => Ok(token_at(key, secs, time_step_size, digits)),
        None => Err(TotpError::ClockBeforeEpoch),
    }
}

/// A code of `digits` digits is below `10^digits`; a six-digit one is at
/// most 999999.
pub proof fn lemma_code_below_modulus(key: Seq<u8>, step_index: u64, digits: nat)
    ensures
        totp_code(key, step_index, digits) < pow10(digits),
        digits == 6 ==> totp_code(key, step_index, digits) <= 999999,
{
    lemma_pow10_pos(digits);
    reveal_with_fuel(pow10, 7);
}

proof fn lemma_pow10_pos(n: nat)
    ensures
        pow10(n) > 0,
    decreases n,
{
    if n > 0 {
        lemma_pow10_pos((n - 1) as nat);
    }
}

/// The seconds left lie in `(0, step]`. From one second to the next they
/// drop by one within a step, and go back to the whole step where a new
/// step begins, which is also where the step index moves on by one.
pub proof fn lemma_seconds_left_ticks(t: u64, step: u64)
    requires
        step > 0,
        t < u64::MAX,
    ensures
        0 < seconds_left(t as nat, step as nat) <= step,
        (t + 1) % (step as int) != 0 ==> seconds_left((t + 1) as nat, step as nat) == seconds_left(
            t as nat,
            step as nat,
        ) - 1 && step_index((t + 1) as u64, step) == step_index(t, step),
        (t + 1) % (step as int) == 0 ==> seconds_left((t + 1) as nat, step as nat) == step
            && step_index((t + 1) as u64, step) == step_index(t, step) + 1,
{
    let q = t / step;
    let r = t % step;
    vstd::arithmetic::div_mod::lemma_fundamental_div_mod(t as int, step as int);
    if r + 1 < step {
        vstd::arithmetic::div_mod::lemma_fundamental_div_mod_converse(
            t + 1,
            step as int,
            q as int,
            r + 1,
        );
    } else {
        assert(t + 1 == (q + 1) * step + 0) by (nonlinear_arith)
            requires
                t == q * step + r,
                r + 1 == step,
        ;
        vstd::arithmetic::div_mod::lemma_fundamental_div_mod_converse(
            t + 1,
            step as int,
            q + 1,
            0,
        );
    }
}

/// Two readings of the clock in the same time step give the same code.
pub proof fn lemma_same_step_same_code(key: Seq<u8>, t1: u64, t2: u64, step: u64, digits: nat)
    requires
        step > 0,
        t1 / step == t2 / step,
    ensures
        totp_code(key, step_index(t1, step), digits) == totp_code(key, step_index(t2, step), digits),
{
}

/// Readings of the clock in different time steps feed HMAC different
/// messages: the eight bytes of a step index tell it apart from any other.
pub proof fn lemma_different_steps_different_messages(a: u64, b: u64)
    requires
        a != b,
    ensures
        be_bytes(a) != be_bytes(b),
{
    if be_bytes(a) == be_bytes(b) {
        assert(be_bytes(a)[0] == be_bytes(b)[0]);
        assert(be_bytes(a)[1] == be_bytes(b)[1]);
        assert(be_bytes(a)[2] == be_bytes(b)[2]);
        assert(be_bytes(a)[3] == be_bytes(b)[3]);
        assert(be_bytes(a)[4] == be_bytes(b)[4]);
        assert(be_bytes(a)[5] == be_bytes(b)[5]);
        assert(be_bytes(a)[6] == be_bytes(b)[6]);
        assert(be_bytes(a)[7] == be_bytes(b)[7]);
        assert(a == b) by (bit_vector)
            requires
                (a >> 56) as u8 == (b >> 56) as u8,
                (a >> 48) as u8 == (b >> 48) as u8,
                (a >> 40) as u8 == (b >> 40) as u8,
                (a >> 32) as u8 == (b >> 32) as u8,
                (a >> 24) as u8 == (b >> 24) as u8,
                (a >> 16) as u8 == (b >> 16) as u8,
                (a >> 8) as u8 == (b >> 8) as u8,
                a as u8 == b as u8,
        ;
    }
}

} // verus!
