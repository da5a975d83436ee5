use tc_service::reply::Reply;
use tc_service::trust::http::{
    accept_invite_reply, budget, envelope_len_reply, trust_repo_error_reply,
    trust_service_error_reply, TrustRepoError,
};
use tc_service::trust::service::{
    decide_denounce, decide_endorse, decide_revoke, is_valid_reason, ActionType, TrustDecision,
    QueuedAction, TrustFacts, TrustQuery, TrustServiceError, DAILY_ACTION_QUOTA, DENOUNCEMENT_REASON_MAX_LEN,
    DENOUNCEMENT_SLOT_LIMIT, ENDORSEMENT_SLOT_LIMIT,
};

#[test]
fn is_valid_reason_accepts_nonempty_within_limit() {
    assert!(is_valid_reason("valid reason"));
}

#[test]
fn is_valid_reason_rejects_empty() {
    assert!(!is_valid_reason(""));
}

#[test]
fn is_valid_reason_rejects_whitespace_only() {
    assert!(!is_valid_reason(" "));
    assert!(!is_valid_reason("   "));
    assert!(!is_valid_reason("\t"));
    assert!(!is_valid_reason("\n"));
}

#[test]
fn is_valid_reason_accepts_exactly_max_len() {
    let reason = "a".repeat(DENOUNCEMENT_REASON_MAX_LEN);
    assert!(is_valid_reason(&reason));
}

#[test]
fn is_valid_reason_rejects_over_max_len() {
    let reason = "a".repeat(DENOUNCEMENT_REASON_MAX_LEN + 1);
    assert!(!is_valid_reason(&reason));
}

#[test]
fn is_valid_reason_accepts_500_multibyte_chars() {
    // Each '中' is 3 bytes; 500 of them is 1500 bytes but only 500 characters.
    let reason = "中".repeat(DENOUNCEMENT_REASON_MAX_LEN);
    assert!(
        is_valid_reason(&reason),
        "500 multi-byte characters should be accepted"
    );
}

#[test]
fn is_valid_reason_rejects_501_multibyte_chars() {
    let reason = "中".repeat(DENOUNCEMENT_REASON_MAX_LEN + 1);
    assert!(
        !is_valid_reason(&reason),
        "501 multi-byte characters should be rejected"
    );
}

#[test]
fn action_type_round_trips_all_variants() {
    for variant in [
        ActionType::Endorse,
        ActionType::Revoke,
        ActionType::Denounce,
    ] {
        assert_eq!(
            ActionType::from_str_opt(variant.as_str()),
            Some(variant),
            "{variant:?}.as_str() did not round-trip through from_str_opt"
        );
    }
}

#[test]
fn action_type_from_str_opt_rejects_unknown() {
    assert_eq!(ActionType::from_str_opt("unknown"), None);
    assert_eq!(ActionType::from_str_opt(""), None);
}

#[test]
fn action_type_from_str_opt_is_case_sensitive() {
    assert_eq!(ActionType::from_str_opt("Endorse"), None);
    assert_eq!(ActionType::from_str_opt("REVOKE"), None);
    assert_eq!(ActionType::from_str_opt("Denounce"), None);
}

#[test]
fn action_type_as_str_matches_db_constraint() {
    assert_eq!(ActionType::Endorse.as_str(), "endorse");
    assert_eq!(ActionType::Revoke.as_str(), "revoke");
    assert_eq!(ActionType::Denounce.as_str(), "denounce");
}

fn facts(
    daily: Option<i64>,
    denounced: Option<bool>,
    verifier: Option<bool>,
    active: Option<i64>,
    total: Option<i64>,
) -> TrustFacts {
    TrustFacts {
        daily_actions: daily,
        denounced,
        is_verifier: verifier,
        active_endorsements: active,
        total_denouncements: total,
    }
}

fn endorse_queued(in_slot: bool) -> TrustDecision {
    TrustDecision::Enqueue { actor: 1, action: QueuedAction::Endorse { subject: 2, in_slot } }
}

#[test]
fn endorse_of_self_is_refused_first() {
    let d = decide_endorse(1, 1, false, &TrustFacts::none());
    assert_eq!(d, TrustDecision::Reject(TrustServiceError::SelfAction));
}

#[test]
fn endorse_with_invalid_weight_is_refused_before_any_query() {
    let d = decide_endorse(1, 2, false, &TrustFacts::none());
    assert_eq!(d, TrustDecision::Reject(TrustServiceError::InvalidWeight));
}

#[test]
fn endorse_asks_in_order_and_queues_in_slot() {
    let mut f = TrustFacts::none();
    assert_eq!(decide_endorse(1, 2, true, &f), TrustDecision::Ask(TrustQuery::DailyActionCount { actor: 1 }));
    f.daily_actions = Some(0);
    assert_eq!(decide_endorse(1, 2, true, &f), TrustDecision::Ask(TrustQuery::ActiveDenouncement { accuser: 1, target: 2 }));
    f.denounced = Some(false);
    assert_eq!(decide_endorse(1, 2, true, &f), TrustDecision::Ask(TrustQuery::IsVerifier { account: 1 }));
    f.is_verifier = Some(false);
    assert_eq!(
        decide_endorse(1, 2, true, &f),
        TrustDecision::Ask(TrustQuery::ActiveEndorsementCount { endorser: 1 })
    );
    f.active_endorsements = Some(i64::from(ENDORSEMENT_SLOT_LIMIT) - 1);
    assert_eq!(decide_endorse(1, 2, true, &f), endorse_queued(true));
}

#[test]
fn endorse_quota_exceeded_at_daily_limit() {
    let f = facts(Some(DAILY_ACTION_QUOTA), None, None, None, None);
    assert_eq!(
        decide_endorse(1, 2, true, &f),
        TrustDecision::Reject(TrustServiceError::QuotaExceeded)
    );
}

#[test]
fn endorse_of_denounced_subject_conflicts() {
    let f = facts(Some(0), Some(true), None, None, None);
    assert_eq!(
        decide_endorse(1, 2, true, &f),
        TrustDecision::Reject(TrustServiceError::DenouncementConflict)
    );
}

#[test]
fn endorse_by_verifier_is_always_in_slot() {
    let f = facts(Some(0), Some(false), Some(true), Some(i64::from(ENDORSEMENT_SLOT_LIMIT)), None);
    assert_eq!(decide_endorse(1, 2, true, &f), endorse_queued(true));
}

#[test]
fn endorse_with_full_slots_is_queued_out_of_slot() {
    let f = facts(Some(0), Some(false), Some(false), Some(i64::from(ENDORSEMENT_SLOT_LIMIT)), None);
    assert_eq!(decide_endorse(1, 2, true, &f), endorse_queued(false));
}

#[test]
fn revoke_checks_self_then_quota() {
    assert_eq!(
        decide_revoke(3, 3, &TrustFacts::none()),
        TrustDecision::Reject(TrustServiceError::SelfAction)
    );
    assert_eq!(
        decide_revoke(3, 4, &TrustFacts::none()),
        TrustDecision::Ask(TrustQuery::DailyActionCount { actor: 3 })
    );
    let spent = facts(Some(DAILY_ACTION_QUOTA), None, None, None, None);
    assert_eq!(
        decide_revoke(3, 4, &spent),
        TrustDecision::Reject(TrustServiceError::QuotaExceeded)
    );
    let fresh = facts(Some(DAILY_ACTION_QUOTA - 1), None, None, None, None);
    assert_eq!(decide_revoke(3, 4, &fresh), TrustDecision::Enqueue { actor: 3, action: QueuedAction::Revoke { subject: 4 } });
}

#[test]
fn denounce_checks_reason_and_carries_max() {
    assert_eq!(
        decide_denounce(1, 1, "reason", &TrustFacts::none()),
        TrustDecision::Reject(TrustServiceError::SelfAction)
    );
    assert_eq!(
        decide_denounce(1, 2, "   ", &TrustFacts::none()),
        TrustDecision::Reject(TrustServiceError::InvalidReason { max: DENOUNCEMENT_REASON_MAX_LEN })
    );
}

#[test]
fn denounce_asks_denounced_before_quota() {
    let mut f = TrustFacts::none();
    assert_eq!(
        decide_denounce(1, 2, "valid reason", &f),
        TrustDecision::Ask(TrustQuery::ActiveDenouncement { accuser: 1, target: 2 })
    );
    f.denounced = Some(true);
    assert_eq!(
        decide_denounce(1, 2, "valid reason", &f),
        TrustDecision::Reject(TrustServiceError::AlreadyDenounced)
    );
    f.denounced = Some(false);
    assert_eq!(
        decide_denounce(1, 2, "valid reason", &f),
        TrustDecision::Ask(TrustQuery::DailyActionCount { actor: 1 })
    );
    f.daily_actions = Some(0);
    assert_eq!(
        decide_denounce(1, 2, "valid reason", &f),
        TrustDecision::Ask(TrustQuery::TotalDenouncementCount { accuser: 1 })
    );
}

#[test]
fn denounce_slot_budget_boundary() {
    let full = facts(Some(0), Some(false), None, None, Some(i64::from(DENOUNCEMENT_SLOT_LIMIT)));
    assert_eq!(
        decide_denounce(1, 2, "valid reason", &full),
        TrustDecision::Reject(TrustServiceError::DenouncementSlotsExhausted {
            max: DENOUNCEMENT_SLOT_LIMIT
        })
    );
    let one_left =
        facts(Some(0), Some(false), None, None, Some(i64::from(DENOUNCEMENT_SLOT_LIMIT) - 1));
    assert_eq!(
        decide_denounce(1, 2, "valid reason", &one_left),
        TrustDecision::Enqueue { actor: 1, action: QueuedAction::Denounce { target: 2 } }
    );
}

#[test]
fn denounce_accepts_reason_at_exactly_max_len() {
    let reason = "x".repeat(DENOUNCEMENT_REASON_MAX_LEN);
    let f = facts(Some(0), Some(false), None, None, Some(0));
    assert_eq!(decide_denounce(1, 2, &reason, &f), TrustDecision::Enqueue { actor: 1, action: QueuedAction::Denounce { target: 2 } });
}

#[test]
fn trust_service_error_messages() {
    assert_eq!(
        TrustServiceError::DenouncementSlotsExhausted { max: 2 }.message(),
        "denouncement slots exhausted (max 2)"
    );
    assert_eq!(
        TrustServiceError::InvalidReason { max: 500 }.message(),
        "reason must be between 1 and 500 characters"
    );
    assert_eq!(TrustServiceError::QuotaExceeded.message(), "daily action quota exceeded");
    assert_eq!(
        TrustServiceError::Repo("boom".to_string()).message(),
        "repository error: boom"
    );
}

fn parts(r: Reply) -> (u16, String) {
    match r {
        Reply::BadRequest(m) => (400, m),
        Reply::Forbidden(m) => (403, m),
        Reply::NotFound(m) => (404, m),
        Reply::Conflict(m) => (409, m),
        Reply::TooManyRequests(m) => (429, m),
        Reply::Internal => (500, String::new()),
    }
}

#[test]
fn trust_service_errors_become_replies() {
    assert_eq!(
        parts(trust_service_error_reply(&TrustServiceError::SelfAction)),
        (400, "Cannot target yourself".to_string())
    );
    assert_eq!(
        parts(trust_service_error_reply(&TrustServiceError::DenouncementSlotsExhausted { max: 2 })),
        (429, "Denouncement slots exhausted (max 2)".to_string())
    );
    assert_eq!(
        parts(trust_service_error_reply(&TrustServiceError::InvalidReason { max: 500 })),
        (400, "reason must be between 1 and 500 characters".to_string())
    );
    assert_eq!(
        parts(trust_service_error_reply(&TrustServiceError::AlreadyDenounced)),
        (409, "Already denounced this user".to_string())
    );
    assert_eq!(
        parts(trust_service_error_reply(&TrustServiceError::EndorsementRepo("x".to_string()))),
        (500, String::new())
    );
}

#[test]
fn trust_repo_errors_become_replies() {
    assert_eq!(parts(trust_repo_error_reply(&TrustRepoError::NotFound)), (404, "Not found".to_string()));
    assert_eq!(
        parts(trust_repo_error_reply(&TrustRepoError::Duplicate)),
        (409, "Duplicate entry".to_string())
    );
    assert_eq!(
        parts(trust_repo_error_reply(&TrustRepoError::Database("x".to_string()))),
        (500, String::new())
    );
}

#[test]
fn budget_counts_available_slots() {
    let b = budget(2, 5, 1);
    assert_eq!(b.slots_total, 3);
    assert_eq!(b.slots_used, 2);
    assert_eq!(b.slots_available, 1);
    assert_eq!(b.out_of_slot_count, 3);
    assert_eq!(b.denouncements_total, 2);
    assert_eq!(b.denouncements_used, 1);
    assert_eq!(b.denouncements_available, 1);
}

#[test]
fn envelope_length_bounds() {
    assert!(envelope_len_reply(0).is_some());
    assert!(envelope_len_reply(1).is_none());
    assert!(envelope_len_reply(4096).is_none());
    let r = envelope_len_reply(4097).unwrap();
    assert_eq!(parts(r), (400, "envelope must be between 1 and 4096 bytes".to_string()));
}

#[test]
fn accepting_own_invite_is_refused() {
    assert_eq!(
        parts(accept_invite_reply(&Ok(7), 7).unwrap()),
        (400, "Cannot accept your own invite".to_string())
    );
    assert!(accept_invite_reply(&Ok(7), 8).is_none());
    assert_eq!(
        parts(accept_invite_reply(&Err(TrustRepoError::NotFound), 8).unwrap()),
        (404, "Invite not found".to_string())
    );
}

#[test]
fn decisions_name_the_accounts_they_ask_about_and_queue_for() {
    let mut f = TrustFacts::none();
    f.daily_actions = Some(0);
    assert_eq!(
        decide_denounce(7, 9, "spam", &f),
        TrustDecision::Ask(TrustQuery::ActiveDenouncement { accuser: 7, target: 9 })
    );
    f.denounced = Some(false);
    assert_eq!(
        decide_denounce(7, 9, "spam", &f),
        TrustDecision::Ask(TrustQuery::TotalDenouncementCount { accuser: 7 })
    );
    f.total_denouncements = Some(0);
    let d = decide_denounce(7, 9, "spam", &f);
    assert_eq!(d, TrustDecision::Enqueue { actor: 7, action: QueuedAction::Denounce { target: 9 } });
    if let TrustDecision::Enqueue { action, .. } = d {
        assert_eq!(action.action_type(), ActionType::Denounce);
    }
    let f = facts(Some(0), Some(false), None, None, None);
    assert_eq!(
        decide_endorse(7, 9, true, &f),
        TrustDecision::Ask(TrustQuery::IsVerifier { account: 7 })
    );
}
