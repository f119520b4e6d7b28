use totp_cli::totp::{
    get_current_time_steps, get_current_token, time_steps_at, token_at, truncate_digest,
    DEFAULT_DIGITS, DEFAULT_TIME_STEP,
};

const RFC_KEY: &[u8] = b"12345678901234567890";

#[test]
fn rfc6238_sha1_at_59() {
    assert_eq!(token_at(RFC_KEY, 59, 30, 8), (94287082, 1));
}

#[test]
fn rfc6238_sha1_other_times() {
    assert_eq!(token_at(RFC_KEY, 1111111109, 30, 8).0, 7081804);
    assert_eq!(token_at(RFC_KEY, 1111111111, 30, 8).0, 14050471);
    assert_eq!(token_at(RFC_KEY, 1234567890, 30, 8).0, 89005924);
    assert_eq!(token_at(RFC_KEY, 2000000000, 30, 8).0, 69279037);
    assert_eq!(token_at(RFC_KEY, 20000000000, 30, 8).0, 65353130);
}

#[test]
fn rfc4226_truncation_example() {
    let digest: [u8; 20] = [
        0x1f, 0x86, 0x98, 0x69, 0x0e, 0x02, 0xca, 0x16, 0x61, 0x85, 0x50, 0xef, 0x7f, 0x19, 0xda,
        0x8e, 0x94, 0x5b, 0x55, 0x5a,
    ];
    assert_eq!(truncate_digest(&digest, 6), 872921);
    assert_eq!(truncate_digest(&digest, 9), 357872921);
    assert_eq!(truncate_digest(&digest, 0), 0);
}

#[test]
fn truncation_clears_the_top_bit() {
    let mut digest = [0xffu8; 20];
    digest[19] = 0xf0;
    assert_eq!(truncate_digest(&digest, 9), 0x7fff_ffff % 1_000_000_000);
}

#[test]
fn six_digit_codes_stay_below_a_million() {
    for t in [0u64, 59, 1111111109, 1234567890, 2000000000] {
        let (code, left) = token_at(RFC_KEY, t, DEFAULT_TIME_STEP, DEFAULT_DIGITS);
        assert!(code <= 999_999);
        assert_eq!(format!("{:06}", code).len(), 6);
        assert!(left >= 1 && left as u64 <= DEFAULT_TIME_STEP);
    }
    assert_eq!(token_at(RFC_KEY, 59, 30, 6).0, 287082);
}

#[test]
fn seconds_left_count_down_and_reset() {
    assert_eq!(time_steps_at(0, 30), (0, 30));
    assert_eq!(time_steps_at(1, 30), (0, 29));
    assert_eq!(time_steps_at(29, 30), (0, 1));
    assert_eq!(time_steps_at(30, 30), (1, 30));
    assert_eq!(time_steps_at(59, 30), (1, 1));
    assert_eq!(time_steps_at(u64::MAX, 255), (u64::MAX / 255, 255));
    assert_eq!(time_steps_at(u64::MAX - 1, 255), (u64::MAX / 255 - 1, 1));
}

#[test]
fn same_step_gives_same_code() {
    assert_eq!(token_at(RFC_KEY, 30, 30, 6).0, token_at(RFC_KEY, 59, 30, 6).0);
    assert_ne!(token_at(RFC_KEY, 59, 30, 8).0, token_at(RFC_KEY, 60, 30, 8).0);
}

#[test]
fn current_token_is_in_range() {
    let (index, left) = get_current_time_steps(30).unwrap();
    assert!(index > 0);
    assert!(left >= 1 && left <= 30);
    let (code, left) = get_current_token(RFC_KEY, 30, 6).unwrap();
    assert!(code < 1_000_000);
    assert!(left >= 1 && left <= 30);
}
