use totp_cli::uri::parse_otpauth_uri;

#[test]
fn otpauth_uri_with_issuer_pair() {
    let info = parse_otpauth_uri(
        "otpauth://totp/Example:alice@google.com?secret=jbswy3dpehpk3pxp&issuer=Example",
    )
    .unwrap();
    assert_eq!(info.label, "Example:alice@google.com");
    assert_eq!(info.issuer, "Example");
    assert_eq!(info.token, "JBSWY3DPEHPK3PXP");
}

#[test]
fn otpauth_uri_issuer_from_label() {
    let info = parse_otpauth_uri("otpauth://totp/ACME:bob?secret=JBSWY3DP").unwrap();
    assert_eq!(info.issuer, "ACME");
    assert_eq!(info.label, "ACME:bob");
    let info = parse_otpauth_uri("otpauth://totp/bob?secret=JBSWY3DP").unwrap();
    assert_eq!(info.issuer, "bob");
}

#[test]
fn otpauth_uri_refusals() {
    assert_eq!(parse_otpauth_uri("not a uri").err(), Some("Invalid uri".to_string()));
    assert_eq!(
        parse_otpauth_uri("otpauth://hotp/x?secret=JBSWY3DP").err(),
        Some("Invalid otpauth uri".to_string())
    );
    assert_eq!(
        parse_otpauth_uri("https://totp/x?secret=JBSWY3DP").err(),
        Some("Invalid otpauth uri".to_string())
    );
    assert_eq!(
        parse_otpauth_uri("otpauth://totp/x?issuer=A").err(),
        Some("Invalid otpauth uri".to_string())
    );
    assert_eq!(
        parse_otpauth_uri("otpauth://totp/x?secret=JBSW0").err(),
        Some("Invalid base32 value: characters out of range".to_string())
    );
}
