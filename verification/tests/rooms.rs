use tc_service::ids::group_positions;
use tc_service::reply::Reply;
use tc_service::rooms::content_filter::FilterResult;
use tc_service::rooms::http::{
    assign_role_reply, capabilities_before_constraint, capabilities_from_eligibility,
    default_constraint_type, default_eligibility_topic, default_endorser, default_engine_type,
    room_error_reply, suggestion_limit_reply, suggestion_status, unknown_engine_reply,
    validate_suggestion_text,
};
use tc_service::rooms::polling::bucket_responses;
use tc_service::rooms::repo::complete_buckets;
use tc_service::rooms::service::{create_room_error, validate_room_name, RoomError, RoomRepoFailure};
use tc_service::trust::constraints::Eligibility;

fn parts(r: Reply) -> (u16, String) {
    match r {
        Reply::BadRequest(m) => (400, m),
        Reply::Forbidden(m) => (403, m),
        Reply::NotFound(m) => (404, m),
        Reply::Conflict(m) => (409, m),
        Reply::TooManyRequests(m) => (429, m),
        Reply::Internal => (500, String::new()),
    }
}

#[test]
fn room_defaults() {
    assert_eq!(default_engine_type(), "polling");
    assert_eq!(default_eligibility_topic(), "identity_verified");
    assert_eq!(default_constraint_type(), "endorsed_by_user");
}

#[test]
fn room_names_are_trimmed_and_must_not_be_blank() {
    assert_eq!(validate_room_name("  Town Hall \n").ok(), Some("Town Hall"));
    match validate_room_name(" \t ") {
        Err(RoomError::Validation(m)) => assert_eq!(m, "Room name cannot be empty"),
        _ => panic!("blank name must be refused"),
    }
}

#[test]
fn room_store_failures_map_to_room_errors() {
    assert!(matches!(create_room_error(RoomRepoFailure::DuplicateName), RoomError::DuplicateRoomName));
    assert_eq!(
        parts(room_error_reply(create_room_error(RoomRepoFailure::DuplicateName))),
        (409, "Room name already exists".to_string())
    );
    assert_eq!(parts(room_error_reply(RoomError::RoomNotFound)), (404, "Room not found".to_string()));
}

#[test]
fn owner_and_assigned_roles_come_first() {
    let owner = capabilities_before_constraint(true, Some("moderator".to_string())).unwrap();
    assert_eq!(owner.role, "owner");
    assert!(owner.can_vote && owner.can_configure);
    let assigned = capabilities_before_constraint(false, Some("moderator".to_string())).unwrap();
    assert_eq!(assigned.role, "moderator");
    assert!(assigned.can_vote && !assigned.can_configure);
    assert!(capabilities_before_constraint(false, None).is_none());
}

#[test]
fn ineligible_accounts_get_a_next_step() {
    let no = Eligibility { is_eligible: false, reason: Some("not endorsed".to_string()) };
    let c = capabilities_from_eligibility(no, "endorsed_by_user");
    assert_eq!(c.role, "none");
    assert!(!c.can_vote);
    assert_eq!(c.reason.as_deref(), Some("not endorsed"));
    assert_eq!(c.next_step.as_deref(), Some("Ask the room owner to endorse you"));
    let no = Eligibility { is_eligible: false, reason: None };
    let c = capabilities_from_eligibility(no, "identity_verified");
    assert_eq!(c.next_step.as_deref(), Some("Complete identity verification or get endorsed"));
    let yes = Eligibility { is_eligible: true, reason: None };
    let c = capabilities_from_eligibility(yes, "identity_verified");
    assert_eq!(c.role, "participant");
    assert!(c.can_vote && !c.can_configure);
}

#[test]
fn suggestions_are_trimmed_and_limited_to_500_characters() {
    assert_eq!(validate_suggestion_text("  add a park  ").ok(), Some("add a park".to_string()));
    assert!(validate_suggestion_text("   ").is_err());
    assert!(validate_suggestion_text(&"a".repeat(500)).is_ok());
    let err = validate_suggestion_text(&"a".repeat(501)).unwrap_err();
    assert_eq!(parts(err), (400, "Suggestion must be 1-500 characters".to_string()));
    // 500 three-byte characters are 500 characters, though 1500 bytes.
    assert!(validate_suggestion_text(&"中".repeat(500)).is_ok());
    assert!(validate_suggestion_text(&"中".repeat(501)).is_err());
}

#[test]
fn daily_suggestion_limit() {
    assert!(suggestion_limit_reply(2).is_none());
    assert_eq!(
        parts(suggestion_limit_reply(3).unwrap()),
        (400, "Daily suggestion limit reached (3)".to_string())
    );
}

#[test]
fn filter_verdict_sets_the_status() {
    assert_eq!(suggestion_status(FilterResult::Accept), ("queued", None));
    assert_eq!(
        suggestion_status(FilterResult::Reject { reason: "spam".to_string() }),
        ("rejected", Some("spam".to_string()))
    );
}

#[test]
fn creator_becomes_default_endorser() {
    let id = uuid::Uuid::from_u128(0x1234_5678_9abc_def0_1234_5678_9abc_def0);
    assert_eq!(
        default_endorser("endorsed_by_user", false, id.as_u128()),
        Some(id.to_string())
    );
    assert_eq!(default_endorser("endorsed_by_user", true, id.as_u128()), None);
    assert_eq!(default_endorser("identity_verified", false, id.as_u128()), None);
}

#[test]
fn unknown_engine_and_role_replies() {
    assert_eq!(parts(unknown_engine_reply("chess")), (400, "Unknown engine type: chess".to_string()));
    assert!(assign_role_reply(Some(4), 4).is_none());
    assert_eq!(
        parts(assign_role_reply(Some(4), 5).unwrap()),
        (403, "Only the room owner can assign roles".to_string())
    );
    assert!(assign_role_reply(None, 5).is_some());
}

#[test]
fn missing_buckets_are_filled_with_zero() {
    let rows = vec![(2i32, 5i64), (10, 1), (2, 7)];
    let buckets = complete_buckets(&rows);
    assert_eq!(buckets.len(), 10);
    assert_eq!(buckets[0].bucket, 1);
    assert_eq!(buckets[0].count, 0);
    assert_eq!(buckets[1].count, 7);
    assert_eq!(buckets[9].count, 1);
    let labelled = bucket_responses(buckets);
    assert_eq!(labelled[0].label, "0\u{2013}10%");
    assert_eq!(labelled[9].label, "90\u{2013}100%");
    assert_eq!(labelled[1].count, 7);
}

#[test]
fn rows_are_grouped_by_dimension_in_order() {
    let keys = vec![7u128, 8, 7, 9];
    let dims = vec![7u128, 9, 10, 7];
    let groups = group_positions(&keys, &dims);
    assert_eq!(groups, vec![vec![0usize, 2], vec![3], vec![], vec![]]);
}
