use totp_cli::hex::decode_hex;

#[test]
fn hex_pairs_decode() {
    assert_eq!(decode_hex(""), Some(vec![]));
    assert_eq!(decode_hex("00ff10"), Some(vec![0x00, 0xff, 0x10]));
    assert_eq!(decode_hex("aBcD"), Some(vec![0xab, 0xcd]));
    assert_eq!(
        decode_hex("3132333435363738393031323334353637383930"),
        Some(b"12345678901234567890".to_vec())
    );
}

#[test]
fn hex_plus_sign_prefix() {
    assert_eq!(decode_hex("+f"), Some(vec![0x0f]));
    assert_eq!(decode_hex("++"), None);
}

#[test]
fn hex_rejects_bad_text() {
    assert_eq!(decode_hex("abc"), None);
    assert_eq!(decode_hex("zz"), None);
    assert_eq!(decode_hex("-1"), None);
    assert_eq!(decode_hex("é0"), None);
}
