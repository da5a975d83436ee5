use serde_json::Value;
use tc_service::trust::service::{ActionType, DENOUNCEMENT_REASON_MAX_LEN};
use tc_service::trust::worker::{
    action_type_of, classify_message, extract_log_id, parse_denounce_payload,
    message_effects, parse_revoke_payload, parse_uuid_field, should_back_off, ActionOutcome,
    MessageStep, TrustActionError, WorkerEffect, MAX_RETRIES,
};
use uuid::Uuid;

fn object(pairs: Vec<(&str, Value)>) -> Value {
    let mut map = serde_json::Map::new();
    for (k, v) in pairs {
        map.insert(k.to_string(), v);
    }
    Value::Object(map)
}

fn field<'a>(payload: &'a Value, key: &str) -> Option<&'a str> {
    payload.get(key).and_then(Value::as_str)
}

fn sample_id() -> Uuid {
    Uuid::from_u128(0x5d1f_3c2a_9b4e_4f60_8a71_2c3d_4e5f_6a7b)
}

fn invalid_payload(err: &TrustActionError) -> &str {
    match err {
        TrustActionError::InvalidPayload(m) => m.as_str(),
        other => panic!("expected InvalidPayload, got: {}", other.message()),
    }
}

// --- extract_log_id ---

#[test]
fn extract_log_id_returns_uuid_for_valid_string() {
    let id = sample_id();
    let msg = object(vec![("log_id", Value::String(id.to_string()))]);
    assert_eq!(extract_log_id(field(&msg, "log_id")), Some(id.as_u128()));
}

#[test]
fn extract_log_id_returns_none_for_missing_key() {
    let msg = object(vec![]);
    assert_eq!(extract_log_id(field(&msg, "log_id")), None);
}

#[test]
fn extract_log_id_returns_none_for_non_string_value() {
    let msg = object(vec![("log_id", Value::from(12345))]);
    assert_eq!(extract_log_id(field(&msg, "log_id")), None);
}

#[test]
fn extract_log_id_returns_none_for_invalid_uuid_string() {
    let msg = object(vec![("log_id", Value::String("not-a-uuid".to_string()))]);
    assert_eq!(extract_log_id(field(&msg, "log_id")), None);
}

// --- parse_uuid ---

#[test]
fn parse_uuid_returns_uuid_for_valid_string() {
    let id = sample_id();
    let payload = object(vec![("subject_id", Value::String(id.to_string()))]);
    assert_eq!(
        parse_uuid_field("subject_id", field(&payload, "subject_id")).unwrap(),
        id.as_u128()
    );
}

#[test]
fn parse_uuid_errors_when_key_is_missing() {
    let payload = object(vec![]);
    let err = parse_uuid_field("subject_id", field(&payload, "subject_id")).unwrap_err();
    assert!(invalid_payload(&err).contains("subject_id"));
}

#[test]
fn parse_uuid_errors_when_value_is_not_a_string() {
    let payload = object(vec![("subject_id", Value::from(42))]);
    let err = parse_uuid_field("subject_id", field(&payload, "subject_id")).unwrap_err();
    assert!(invalid_payload(&err).contains("subject_id"));
}

#[test]
fn parse_uuid_errors_when_value_is_invalid_uuid() {
    let payload = object(vec![("subject_id", Value::String("not-a-uuid".to_string()))]);
    let err = parse_uuid_field("subject_id", field(&payload, "subject_id")).unwrap_err();
    let msg = invalid_payload(&err);
    assert!(msg.contains("subject_id") && msg.contains("not a valid UUID"), "got: {msg}");
}

// --- parse_revoke_payload ---

#[test]
fn parse_revoke_payload_returns_uuid_for_valid_payload() {
    let subject_id = sample_id();
    let payload = object(vec![("subject_id", Value::String(subject_id.to_string()))]);
    assert_eq!(
        parse_revoke_payload(field(&payload, "subject_id")).unwrap(),
        subject_id.as_u128()
    );
}

#[test]
fn parse_revoke_payload_errors_when_subject_id_is_missing() {
    let payload = object(vec![]);
    let err = parse_revoke_payload(field(&payload, "subject_id")).unwrap_err();
    assert!(invalid_payload(&err).contains("subject_id"));
}

#[test]
fn parse_revoke_payload_errors_when_subject_id_is_not_a_string() {
    let payload = object(vec![("subject_id", Value::from(42))]);
    let err = parse_revoke_payload(field(&payload, "subject_id")).unwrap_err();
    assert!(invalid_payload(&err).contains("subject_id"));
}

#[test]
fn parse_revoke_payload_errors_when_subject_id_is_invalid_uuid() {
    let payload = object(vec![("subject_id", Value::String("not-a-uuid".to_string()))]);
    let err = parse_revoke_payload(field(&payload, "subject_id")).unwrap_err();
    let msg = invalid_payload(&err);
    assert!(msg.contains("subject_id") && msg.contains("not a valid UUID"), "got: {msg}");
}

// --- parse_denounce_payload ---

#[test]
fn parse_denounce_payload_returns_fields_for_valid_payload() {
    let target_id = sample_id();
    let payload = object(vec![
        ("target_id", Value::String(target_id.to_string())),
        ("reason", Value::String("harmful conduct".to_string())),
    ]);
    let (tid, reason) =
        parse_denounce_payload(field(&payload, "target_id"), field(&payload, "reason")).unwrap();
    assert_eq!(tid, target_id.as_u128());
    assert_eq!(reason, "harmful conduct");
}

#[test]
fn parse_denounce_payload_errors_when_target_id_is_missing() {
    let payload = object(vec![("reason", Value::String("harmful conduct".to_string()))]);
    let err = parse_denounce_payload(field(&payload, "target_id"), field(&payload, "reason"))
        .unwrap_err();
    assert!(invalid_payload(&err).contains("target_id"));
}

#[test]
fn parse_denounce_payload_errors_when_reason_is_missing() {
    let payload = object(vec![("target_id", Value::String(sample_id().to_string()))]);
    let err = parse_denounce_payload(field(&payload, "target_id"), field(&payload, "reason"))
        .unwrap_err();
    assert!(invalid_payload(&err).contains("missing 'reason'"));
}

#[test]
fn parse_denounce_payload_errors_when_reason_is_not_a_string() {
    let payload = object(vec![
        ("target_id", Value::String(sample_id().to_string())),
        ("reason", Value::from(42)),
    ]);
    let err = parse_denounce_payload(field(&payload, "target_id"), field(&payload, "reason"))
        .unwrap_err();
    assert!(invalid_payload(&err).contains("missing 'reason'"));
}

#[test]
fn parse_denounce_payload_errors_when_reason_is_empty() {
    let payload = object(vec![
        ("target_id", Value::String(sample_id().to_string())),
        ("reason", Value::String(String::new())),
    ]);
    let err = parse_denounce_payload(field(&payload, "target_id"), field(&payload, "reason"))
        .unwrap_err();
    assert!(invalid_payload(&err).contains("out of range"));
}

#[test]
fn parse_denounce_payload_errors_when_reason_is_whitespace_only() {
    let payload = object(vec![
        ("target_id", Value::String(sample_id().to_string())),
        ("reason", Value::String("   ".to_string())),
    ]);
    let err = parse_denounce_payload(field(&payload, "target_id"), field(&payload, "reason"))
        .unwrap_err();
    assert!(invalid_payload(&err).contains("out of range"));
}

#[test]
fn parse_denounce_payload_errors_when_reason_exceeds_max_len() {
    let long_reason = "x".repeat(DENOUNCEMENT_REASON_MAX_LEN + 1);
    let payload = object(vec![
        ("target_id", Value::String(sample_id().to_string())),
        ("reason", Value::String(long_reason)),
    ]);
    let err = parse_denounce_payload(field(&payload, "target_id"), field(&payload, "reason"))
        .unwrap_err();
    let msg = invalid_payload(&err);
    assert_eq!(msg, "denounce payload 'reason' length out of range [1, 500]: 501");
}

// --- decisions of the run loop ---

#[test]
fn messages_past_max_retries_are_poison() {
    let id = sample_id().to_string();
    assert_eq!(
        classify_message(MAX_RETRIES + 1, Some(id.as_str())),
        MessageStep::Poison { poisoned: Some(sample_id().as_u128()) }
    );
    assert_eq!(
        classify_message(MAX_RETRIES + 1, Some("junk")),
        MessageStep::Poison { poisoned: None }
    );
    assert_eq!(
        classify_message(MAX_RETRIES, Some(id.as_str())),
        MessageStep::Process { log_id: sample_id().as_u128() }
    );
    assert_eq!(classify_message(1, None), MessageStep::BadPayload);
}

#[test]
fn loop_backs_off_unless_a_message_was_processed() {
    assert!(!should_back_off(Ok(true)));
    assert!(should_back_off(Ok(false)));
    assert!(should_back_off(Err(TrustActionError::Queue("down".to_string()))));
}

#[test]
fn unknown_action_types_are_refused_by_name() {
    assert_eq!(action_type_of("endorse").unwrap(), ActionType::Endorse);
    let err = action_type_of("promote").unwrap_err();
    assert_eq!(err.message(), "unknown action type: promote");
}

#[test]
fn missing_key_message_names_the_key() {
    let err = parse_uuid_field("subject_id", None).unwrap_err();
    assert_eq!(err.message(), "invalid payload: payload missing 'subject_id'");
}

#[test]
fn poison_message_fails_its_action_then_is_archived() {
    let effects = message_effects(7, MessageStep::Poison { poisoned: Some(42) }, ActionOutcome::NotLoaded);
    assert_eq!(
        effects,
        vec![
            WorkerEffect::FailAction {
                action_id: 42,
                error: "poison message: exceeded max retries".to_string()
            },
            WorkerEffect::Archive { msg_id: 7 },
        ]
    );
    let effects = message_effects(7, MessageStep::Poison { poisoned: None }, ActionOutcome::NotLoaded);
    assert_eq!(effects, vec![WorkerEffect::Archive { msg_id: 7 }]);
}

#[test]
fn bad_payload_is_only_archived() {
    assert_eq!(
        message_effects(8, MessageStep::BadPayload, ActionOutcome::NotLoaded),
        vec![WorkerEffect::Archive { msg_id: 8 }]
    );
}

#[test]
fn unloaded_action_leaves_its_message_queued() {
    assert!(message_effects(9, MessageStep::Process { log_id: 5 }, ActionOutcome::NotLoaded).is_empty());
}

#[test]
fn processed_action_is_completed_or_failed_then_archived() {
    let ok = ActionOutcome::Processed { action_id: 5, result: Ok(()) };
    assert_eq!(
        message_effects(9, MessageStep::Process { log_id: 5 }, ok),
        vec![WorkerEffect::CompleteAction { action_id: 5 }, WorkerEffect::Archive { msg_id: 9 }]
    );
    let failed = ActionOutcome::Processed {
        action_id: 5,
        result: Err(TrustActionError::UnknownActionType("promote".to_string())),
    };
    assert_eq!(
        message_effects(9, MessageStep::Process { log_id: 5 }, failed),
        vec![
            WorkerEffect::FailAction { action_id: 5, error: "unknown action type: promote".to_string() },
            WorkerEffect::Archive { msg_id: 9 },
        ]
    );
}
