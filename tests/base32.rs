use totp_cli::base32::{base32decode, decode_base32, validate_base32, Base32Error};

#[test]
fn test_hello() {
    assert_eq!(
        Ok("Hello, world!".to_string()),
        String::from_utf8(base32decode("JBSWY3DPFQQHO33SNRSCC").unwrap())
    );
}

#[test]
fn test_lowercase() {
    assert_eq!(
        Ok("lowercase".to_string()),
        String::from_utf8(base32decode("nrxxozlsmnqxgzi").unwrap())
    );
}

#[test]
fn test_error() {
    assert_eq!(None, base32decode("!!!"));
}

#[test]
fn empty_text_decodes_to_nothing() {
    assert_eq!(decode_base32(""), Ok(vec![]));
    assert_eq!(base32decode(""), Some(vec![]));
}

#[test]
fn mixed_case_decodes_like_upper_case() {
    assert_eq!(decode_base32("jBsWy3DpFqQhO33sNrScC"), decode_base32("JBSWY3DPFQQHO33SNRSCC"));
    assert_eq!(decode_base32("NRXXOZLSMNQXGZI"), decode_base32("nrxxozlsmnqxgzi"));
}

#[test]
fn non_ascii_is_refused_first() {
    assert_eq!(decode_base32("JBSWé"), Err(Base32Error::NonAsciiInput));
    assert_eq!(decode_base32("é!"), Err(Base32Error::NonAsciiInput));
}

#[test]
fn foreign_symbols_are_refused() {
    assert_eq!(decode_base32("JBSW0"), Err(Base32Error::InvalidAlphabetCharacter));
    assert_eq!(decode_base32("JBSW1"), Err(Base32Error::InvalidAlphabetCharacter));
    assert_eq!(decode_base32("JBSW8"), Err(Base32Error::InvalidAlphabetCharacter));
    assert_eq!(decode_base32("JBSW9"), Err(Base32Error::InvalidAlphabetCharacter));
    assert_eq!(decode_base32("JBSW="), Err(Base32Error::InvalidAlphabetCharacter));
    assert_eq!(decode_base32("!!!"), Err(Base32Error::InvalidAlphabetCharacter));
}

#[test]
fn rfc4648_vectors_without_padding() {
    assert_eq!(decode_base32("MY"), Ok(b"f".to_vec()));
    assert_eq!(decode_base32("MZXQ"), Ok(b"fo".to_vec()));
    assert_eq!(decode_base32("MZXW6"), Ok(b"foo".to_vec()));
    assert_eq!(decode_base32("MZXW6YQ"), Ok(b"foob".to_vec()));
    assert_eq!(decode_base32("MZXW6YTB"), Ok(b"fooba".to_vec()));
    assert_eq!(decode_base32("MZXW6YTBOI"), Ok(b"foobar".to_vec()));
}

#[test]
fn trailing_bits_are_dropped() {
    assert_eq!(decode_base32("A"), Ok(vec![]));
    assert_eq!(decode_base32("77"), Ok(vec![0xff]));
    assert_eq!(decode_base32("7777777"), Ok(vec![0xff, 0xff, 0xff, 0xff]));
}

#[test]
fn validate_returns_upper_case() {
    assert_eq!(validate_base32("jbswY3dp"), Ok("JBSWY3DP".to_string()));
    assert_eq!(validate_base32(""), Ok(String::new()));
}

#[test]
fn validate_reports_the_cause() {
    assert_eq!(
        validate_base32("jbswé"),
        Err("Invalid base32 value: non ascii characters".to_string())
    );
    assert_eq!(
        validate_base32("jbsw0"),
        Err("Invalid base32 value: characters out of range".to_string())
    );
    assert_eq!(
        Base32Error::InvalidAlphabetCharacter.message(),
        "Invalid base32 value: characters out of range".to_string()
    );
}
