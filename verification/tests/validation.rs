use tc_service::validation::{validate_base64url_ed25519_pubkey, PubkeyError};

#[test]
fn test_valid_pubkey() {
    // 32 bytes encoded as base64url (no padding)
    let valid = "AAAAAAAAAAAAAAAAAAAAAAAAAAAAAAAAAAAAAAAAAAA";
    assert!(validate_base64url_ed25519_pubkey(valid).is_ok());
}

#[test]
fn test_invalid_base64() {
    let invalid = "not-valid-base64!!!";
    let err = validate_base64url_ed25519_pubkey(invalid).unwrap_err();
    assert_eq!(err.code().as_str(), "invalid_base64url");
}

#[test]
fn test_wrong_length() {
    // 16 bytes instead of 32
    let short = "AAAAAAAAAAAAAAAAAAAAAA";
    let err = validate_base64url_ed25519_pubkey(short).unwrap_err();
    assert_eq!(err.code().as_str(), "invalid_pubkey_length");
}

#[test]
fn padded_text_is_not_base64url() {
    let padded = "AAAAAAAAAAAAAAAAAAAAAAAAAAAAAAAAAAAAAAAAAAA=";
    assert_eq!(
        validate_base64url_ed25519_pubkey(padded),
        Err(PubkeyError::InvalidBase64url)
    );
}
