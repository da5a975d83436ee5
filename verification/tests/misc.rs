use tc_service::reply::Reply;
use tc_service::reputation::http::{endorsement_error_reply, endorsement_query_inputs, verifier_gate, EndorsementQuery};
use tc_service::reputation::service::{
    check_topic, endorsement_store_error, verifier_lookup_error, EndorsementError,
    EndorsementRepoError, VerifierAccountRepoError,
};
use tc_service::rest::ProblemDetails;
use tc_service::rooms::content_filter::{ContentFilter, FilterResult, NoopFilter};
use tc_service::seed::accounts::{after_create, after_lookup, AccountCreation, AccountLookup, AccountStep};
use tc_service::seed::content::{InsertResult, RoomAttempt};
use tc_service::sim::brand::{brand_room_exists, dimension, evidence_cards, room_name, DIMENSION_COUNT};
use tc_service::sim::content::is_conflict;
use tc_service::sim::llm::DimensionEvidence;
use tc_service::sim::votes::{vote_cast_outcome, voters_to_add, VoteCast, VOTE_SEED};
use tc_service::storage::{LocalFileStore, ObjectStore};
use tc_service::trust::constraints::{
    CongressConstraint, EndorsedByConstraint, IdentityVerifiedConstraint, ScoreFacts,
};

#[test]
fn problem_details_internal_error() {
    let p = ProblemDetails::internal_error("Something went wrong");
    assert_eq!(p.problem_type, "https://tinycongress.com/errors/internal");
    assert_eq!(p.title, "Internal Server Error");
    assert_eq!(p.status, 500);
    assert_eq!(p.detail, "Something went wrong");
    assert!(p.instance.is_none());
    let ext = p.extensions.unwrap();
    assert_eq!(ext.code, "INTERNAL_ERROR");
    assert!(ext.field.is_none());
}

#[test]
fn local_store_serves_keys_under_its_prefix() {
    let store = LocalFileStore::from_parts("/tmp/uploads".to_string(), "/api/v1/uploads");
    assert_eq!(store.url_path("memes/a.png"), "/api/v1/uploads/memes/a.png");
    assert_eq!(store.base_dir_str(), "/tmp/uploads");
}

#[test]
fn congress_constraint_requires_min_diversity() {
    assert_eq!(
        CongressConstraint::new(1, 0).err(),
        Some("min_diversity must be >= 1, got 0".to_string())
    );
    let c = CongressConstraint::new(1, 2).ok().unwrap();
    let low = c.check(Some(ScoreFacts { has_trust_distance: true, path_diversity: Some(1) }));
    assert!(!low.is_eligible);
    assert_eq!(low.reason.as_deref(), Some("path diversity 1 is below minimum 2"));
    let ok = c.check(Some(ScoreFacts { has_trust_distance: true, path_diversity: Some(2) }));
    assert!(ok.is_eligible && ok.reason.is_none());
    let none = c.check(None);
    assert_eq!(none.reason.as_deref(), Some("no trust score found for user"));
    let uncomputed = c.check(Some(ScoreFacts { has_trust_distance: true, path_diversity: None }));
    assert_eq!(uncomputed.reason.as_deref(), Some("path diversity not computed"));
}

#[test]
fn endorsed_by_constraint_needs_a_trust_distance() {
    let c = EndorsedByConstraint::new(9);
    assert!(c.check(Some(ScoreFacts { has_trust_distance: true, path_diversity: None })).is_eligible);
    assert!(!c.check(Some(ScoreFacts { has_trust_distance: false, path_diversity: Some(3) })).is_eligible);
    assert!(!c.check(None).is_eligible);
}

#[test]
fn identity_verified_constraint() {
    let c = IdentityVerifiedConstraint::new(vec![1, 2], "identity_verified".to_string());
    assert!(c.check(true).is_eligible);
    let no = c.check(false);
    assert_eq!(
        no.reason.as_deref(),
        Some("User has not completed identity verification from a recognised verifier")
    );
}

#[test]
fn noop_filter_accepts_everything() {
    assert!(matches!(NoopFilter.check("anything at all"), FilterResult::Accept));
}

#[test]
fn endorsement_errors() {
    assert!(matches!(check_topic(""), Err(EndorsementError::Validation(ref m)) if m == "Topic cannot be empty"));
    assert!(check_topic("identity_verified").is_ok());
    assert!(matches!(
        verifier_lookup_error(VerifierAccountRepoError::NotFound, "idme"),
        EndorsementError::VerifierNotFound(ref m) if m == "idme"
    ));
    assert!(matches!(
        verifier_lookup_error(VerifierAccountRepoError::Database("x".to_string()), "idme"),
        EndorsementError::Internal(ref m) if m == "Internal server error"
    ));
    assert!(matches!(endorsement_store_error(EndorsementRepoError::Duplicate), EndorsementError::Duplicate));
    assert_eq!(
        EndorsementError::VerifierNotFound("idme".to_string()).message(),
        "verifier not found: idme"
    );
    assert!(matches!(
        endorsement_error_reply(EndorsementError::Validation("bad".to_string())),
        Reply::BadRequest(ref m) if m == "bad"
    ));
    assert!(matches!(endorsement_error_reply(EndorsementError::Duplicate), Reply::Internal));
}

#[test]
fn endorsement_query_needs_subject_then_topic() {
    let q = EndorsementQuery { subject_id: None, topic: Some("t".to_string()) };
    assert!(matches!(endorsement_query_inputs(q), Err(Reply::BadRequest(ref m)) if m == "subject_id query parameter is required"));
    let q = EndorsementQuery { subject_id: Some(3), topic: None };
    assert!(matches!(endorsement_query_inputs(q), Err(Reply::BadRequest(ref m)) if m == "topic query parameter is required"));
    let q = EndorsementQuery { subject_id: Some(3), topic: Some("t".to_string()) };
    assert!(matches!(endorsement_query_inputs(q), Ok((3, ref t)) if t == "t"));
    assert!(verifier_gate(true).is_none());
    assert!(matches!(verifier_gate(false), Some(Reply::Forbidden(ref m)) if m == "Account is not an authorized verifier"));
}

#[test]
fn brand_room_and_dimensions() {
    assert_eq!(room_name(), "Brand Ethics");
    assert_eq!(DIMENSION_COUNT, 5);
    assert_eq!(dimension(0), ("Labor Practices", "Exploitative", "Exemplary"));
    assert_eq!(dimension(4), ("Corporate Governance", "Self-Serving", "Accountable"));
}

#[test]
fn evidence_cards_list_pros_then_cons() {
    let ev = DimensionEvidence {
        pro: vec!["p1".to_string(), "p2".to_string()],
        con: vec!["c1".to_string()],
    };
    let cards = evidence_cards(&ev);
    let stances: Vec<&str> = cards.iter().map(|c| c.stance.as_str()).collect();
    let claims: Vec<&str> = cards.iter().map(|c| c.claim.as_str()).collect();
    assert_eq!(stances, vec!["pro", "pro", "con"]);
    assert_eq!(claims, vec!["p1", "p2", "c1"]);
    assert!(cards.iter().all(|c| c.source.is_none()));
}

#[test]
fn voters_to_add_counts_from_existing_up_to_wanted() {
    assert_eq!(VOTE_SEED, 20_260_303);
    assert_eq!(voters_to_add(15, 20, 0), Some((0, 15)));
    assert_eq!(voters_to_add(15, 10, 4), Some((4, 10)));
    assert_eq!(voters_to_add(15, 20, 15), None);
    assert_eq!(voters_to_add(15, 20, -3), Some((0, 15)));
    assert_eq!(voters_to_add(0, 20, 0), None);
}

#[test]
fn refused_votes_are_skipped_on_403_only() {
    assert_eq!(vote_cast_outcome(Ok(())), VoteCast::Counted);
    assert_eq!(
        vote_cast_outcome(Err("cast_vote failed: 403 Forbidden".to_string())),
        VoteCast::Skipped
    );
    assert_eq!(
        vote_cast_outcome(Err("cast_vote failed: 500".to_string())),
        VoteCast::Failed("cast_vote failed: 500".to_string())
    );
    assert!(is_conflict("create_room failed: 409 Conflict"));
    assert!(!is_conflict("create_room failed: 400"));
}

#[test]
fn insert_result_counts_rooms_and_polls() {
    let mut r = InsertResult::empty();
    assert!(r.count_room(RoomAttempt::Created));
    r.count_poll();
    r.count_poll();
    assert!(!r.count_room(RoomAttempt::Duplicate));
    assert_eq!((r.rooms_created, r.rooms_skipped, r.polls_created), (1, 1, 2));
}

#[test]
fn demo_account_steps() {
    assert_eq!(after_lookup(AccountLookup::Found(4)), AccountStep::Use(4));
    assert_eq!(after_lookup(AccountLookup::NotFound), AccountStep::Create);
    assert_eq!(after_lookup(AccountLookup::Failed), AccountStep::Fail);
    assert_eq!(after_create(AccountCreation::Created(5)), AccountStep::Use(5));
    assert_eq!(after_create(AccountCreation::DuplicateUsername), AccountStep::LookUpAgain);
    assert_eq!(after_create(AccountCreation::Failed), AccountStep::Fail);
}

#[test]
fn brand_room_is_found_by_exact_name() {
    assert!(brand_room_exists(&vec!["Town Hall".to_string(), "Brand Ethics".to_string()]));
    assert!(!brand_room_exists(&vec!["brand ethics".to_string()]));
    assert!(!brand_room_exists(&vec![]));
}
