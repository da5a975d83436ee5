use tc_service::reputation::idme::{
    authorize_url, callback_inputs, frontend_redirect_url, identity_link_decision,
    sign_state_payload, state_is_fresh, verify_state_payload, CallbackQuery, IdentityLookup,
    LinkDecision, STATE_MAX_AGE_SECS,
};

const SECRET: &[u8] = b"state-secret";

#[test]
fn signed_state_reads_back_as_its_payload() {
    let payload = r#"{"account_id":"5d1f3c2a-9b4e-4f60-8a71-2c3d4e5f6a7b","nonce":"n","ts":1}"#;
    let signed = sign_state_payload(payload, SECRET);
    assert_eq!(verify_state_payload(&signed, SECRET), Ok(payload.to_string()));
}

#[test]
fn signed_state_round_trips_non_ascii_text() {
    let payload = "naïve — 中文";
    let signed = sign_state_payload(payload, SECRET);
    assert_eq!(verify_state_payload(&signed, SECRET), Ok(payload.to_string()));
}

#[test]
fn state_signed_with_another_secret_is_refused() {
    let signed = sign_state_payload("payload", b"other-secret");
    assert_eq!(verify_state_payload(&signed, SECRET), Err("invalid state signature"));
}

#[test]
fn state_without_a_dot_is_malformed() {
    assert_eq!(verify_state_payload("abcdef", SECRET), Err("invalid state format"));
}

#[test]
fn state_with_bad_encoding_is_refused() {
    assert_eq!(verify_state_payload("!!!.AAAA", SECRET), Err("invalid state encoding"));
    let signed = sign_state_payload("payload", SECRET);
    let (head, _) = signed.split_once('.').unwrap();
    let tampered = format!("{head}.***");
    assert_eq!(verify_state_payload(&tampered, SECRET), Err("invalid state encoding"));
}

#[test]
fn tampered_payload_fails_the_signature() {
    let signed = sign_state_payload("payload", SECRET);
    let (_, tag) = signed.split_once('.').unwrap();
    let other = sign_state_payload("other", SECRET);
    let (other_head, _) = other.split_once('.').unwrap();
    let forged = format!("{other_head}.{tag}");
    assert_eq!(verify_state_payload(&forged, SECRET), Err("invalid state signature"));
}

#[test]
fn state_freshness_window() {
    assert!(state_is_fresh(1000, 1000));
    assert!(state_is_fresh(1000 + STATE_MAX_AGE_SECS, 1000));
    assert!(!state_is_fresh(1001 + STATE_MAX_AGE_SECS, 1000));
    assert!(!state_is_fresh(999, 1000));
}

#[test]
fn authorize_url_percent_encodes_its_parameters() {
    let url = authorize_url(
        "https://id.me/oauth/authorize",
        "client id",
        "https://app.example/cb?x=1",
        "abc.def",
    );
    assert_eq!(
        url,
        "https://id.me/oauth/authorize?client_id=client%20id&redirect_uri=https%3A%2F%2Fapp.example%2Fcb%3Fx%3D1&response_type=code&scope=openid&state=abc.def"
    );
}

#[test]
fn frontend_redirect_picks_the_separator() {
    assert_eq!(
        frontend_redirect_url("https://app/verify", "error", "Missing state parameter"),
        "https://app/verify?verification=error&message=Missing%20state%20parameter"
    );
    assert_eq!(
        frontend_redirect_url("https://app/verify?tab=1", "success", ""),
        "https://app/verify?tab=1&verification=success&message="
    );
}

#[test]
fn callback_inputs_reports_each_missing_piece() {
    let denied = CallbackQuery {
        code: Some("c".to_string()),
        state: Some("s".to_string()),
        error: Some("access_denied".to_string()),
        error_description: None,
    };
    assert_eq!(
        callback_inputs(&denied),
        Err("Identity verification was denied or cancelled".to_string())
    );
    let no_code = CallbackQuery { code: None, state: None, error: None, error_description: None };
    assert_eq!(callback_inputs(&no_code), Err("Missing authorization code".to_string()));
    let no_state =
        CallbackQuery { code: Some("c".to_string()), state: None, error: None, error_description: None };
    assert_eq!(callback_inputs(&no_state), Err("Missing state parameter".to_string()));
    let full = CallbackQuery {
        code: Some("c".to_string()),
        state: Some("s".to_string()),
        error: None,
        error_description: None,
    };
    assert_eq!(callback_inputs(&full), Ok(("c", "s")));
}

#[test]
fn one_identity_links_to_one_account() {
    assert_eq!(identity_link_decision(IdentityLookup::LinkedTo(5), 5), Ok(LinkDecision::AlreadyLinked));
    assert_eq!(
        identity_link_decision(IdentityLookup::LinkedTo(6), 5),
        Err("This identity is already linked to another account".to_string())
    );
    assert_eq!(identity_link_decision(IdentityLookup::NotFound, 5), Ok(LinkDecision::Link));
    assert_eq!(
        identity_link_decision(IdentityLookup::Failed, 5),
        Err("Verification failed".to_string())
    );
}
