use dev_board_auth::{decode, encode, Claim, TokenError};

const KEY: &str = "test-signing-key";

#[test]
fn round_trip_returns_claim() {
    let claim = Claim { subject: 42, issued_at: 10, expires_at: 100 };
    let token = encode(KEY, &claim);
    let decoded = decode(KEY, token.as_str(), 50).expect("fresh token must decode");
    assert_eq!(decoded.subject, 42);
    assert_eq!(decoded.issued_at, 10);
    assert_eq!(decoded.expires_at, 100);
}

#[test]
fn round_trip_large_values() {
    let claim = Claim { subject: u64::MAX, issued_at: 0, expires_at: u64::MAX };
    let token = encode(KEY, &claim);
    let decoded = decode(KEY, token.as_str(), u64::MAX - 1).expect("token must decode");
    assert_eq!(decoded, claim);
}

#[test]
fn expired_token_rejected() {
    let claim = Claim { subject: 42, issued_at: 10, expires_at: 100 };
    let token = encode(KEY, &claim);
    assert_eq!(decode(KEY, token.as_str(), 100), Err(TokenError::ExpiredToken));
    assert_eq!(decode(KEY, token.as_str(), 5000), Err(TokenError::ExpiredToken));
}

#[test]
fn tampered_tag_rejected() {
    let claim = Claim { subject: 7, issued_at: 0, expires_at: 100 };
    let token = encode(KEY, &claim);
    let mut fields: Vec<String> = token.split('.').map(|f| f.to_string()).collect();
    assert_eq!(fields.len(), 4);
    let tag: u64 = fields[3].parse().unwrap();
    fields[3] = (tag + 1).to_string();
    let forged = fields.join(".");
    assert_eq!(decode(KEY, forged.as_str(), 50), Err(TokenError::InvalidSignature));
}

#[test]
fn tampered_subject_rejected() {
    let claim = Claim { subject: 7, issued_at: 0, expires_at: 100 };
    let token = encode(KEY, &claim);
    let mut fields: Vec<String> = token.split('.').map(|f| f.to_string()).collect();
    fields[0] = "8".to_string();
    let forged = fields.join(".");
    assert_eq!(decode(KEY, forged.as_str(), 50), Err(TokenError::InvalidSignature));
}

#[test]
fn wrong_key_rejected() {
    let claim = Claim { subject: 7, issued_at: 0, expires_at: 100 };
    let token = encode("one signing key", &claim);
    let r = decode("another signing key", token.as_str(), 50);
    assert_eq!(r, Err(TokenError::InvalidSignature));
}

#[test]
fn malformed_tokens_rejected() {
    for bad in [
        "",
        "abc",
        "1",
        "1.2",
        "1.2.3",
        "1.2.3.4.5",
        "1.2.x.4",
        "1..3.4",
        ".2.3.4",
        "1.2.3.",
        "99999999999999999999999999.2.3.4",
    ] {
        assert_eq!(decode(KEY, bad, 0), Err(TokenError::MalformedToken), "input: {:?}", bad);
    }
}

#[test]
fn token_has_four_decimal_fields() {
    let claim = Claim { subject: 123, issued_at: 4, expires_at: 56 };
    let token = encode(KEY, &claim);
    let fields: Vec<&str> = token.split('.').collect();
    assert_eq!(fields.len(), 4);
    assert_eq!(fields[0], "123");
    assert_eq!(fields[1], "4");
    assert_eq!(fields[2], "56");
    assert!(fields[3].chars().all(|c| c.is_ascii_digit()));
    assert!(!fields[3].is_empty());
}
