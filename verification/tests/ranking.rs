use tc_service::reply::Reply;
use tc_service::rooms::ranking::{
    content_type_to_str, hall_of_fame_slots, leaderboard_slots, matchup_action,
    parse_content_type, ContentType, LeaderboardSlot, MatchupAction, RecordMatchupRequest,
};

fn parts(r: Reply) -> (u16, String) {
    match r {
        Reply::BadRequest(m) => (400, m),
        Reply::Forbidden(m) => (403, m),
        Reply::NotFound(m) => (404, m),
        Reply::Conflict(m) => (409, m),
        Reply::TooManyRequests(m) => (429, m),
        Reply::Internal => (500, String::new()),
    }
}

#[test]
fn leaderboard_ranks_follow_rating_order() {
    // The second rating's submission is missing: its rank is skipped.
    let rated = vec![30u128, 99, 10, 20];
    let subs = vec![10u128, 20, 30];
    let slots = leaderboard_slots(&rated, &subs);
    assert_eq!(
        slots,
        vec![
            LeaderboardSlot { rating_index: 0, submission_index: 2, rank: 1 },
            LeaderboardSlot { rating_index: 2, submission_index: 0, rank: 3 },
            LeaderboardSlot { rating_index: 3, submission_index: 1, rank: 4 },
        ]
    );
}

#[test]
fn hall_of_fame_keeps_entries_with_submission_and_round() {
    let entries = vec![(1u128, 100u128), (2, 200), (3, 100)];
    let subs = vec![3u128, 1];
    let rounds = vec![100u128];
    assert_eq!(hall_of_fame_slots(&entries, &subs, &rounds), vec![(0, 1, 0), (2, 0, 0)]);
}

#[test]
fn content_types_round_trip() {
    for ct in [ContentType::Url, ContentType::Image] {
        let name = content_type_to_str(&ct);
        assert!(matches!(parse_content_type(name), Ok(ref back) if content_type_to_str(back) == name));
    }
    assert!(parse_content_type("video").is_err());
}

#[test]
fn skip_requests_need_both_submissions() {
    let req = RecordMatchupRequest {
        winner_id: None,
        loser_id: None,
        skipped: Some(true),
        submission_a: Some("550e8400-e29b-41d4-a716-446655440000".to_string()),
        submission_b: None,
    };
    assert_eq!(
        parts(matchup_action(&req).unwrap_err()),
        (400, "submission_b required for skip".to_string())
    );
}

#[test]
fn judgements_parse_both_ids() {
    let req = RecordMatchupRequest {
        winner_id: Some("550e8400-e29b-41d4-a716-446655440000".to_string()),
        loser_id: Some("not-a-uuid".to_string()),
        skipped: None,
        submission_a: None,
        submission_b: None,
    };
    assert_eq!(parts(matchup_action(&req).unwrap_err()), (400, "invalid UUID for loser_id".to_string()));
    let req = RecordMatchupRequest {
        winner_id: Some("550e8400-e29b-41d4-a716-446655440000".to_string()),
        loser_id: Some("550e8400-e29b-41d4-a716-446655440001".to_string()),
        skipped: Some(false),
        submission_a: None,
        submission_b: None,
    };
    assert_eq!(
        matchup_action(&req).unwrap(),
        MatchupAction::Record {
            winner_id: 0x550e8400_e29b_41d4_a716_446655440000,
            loser_id: 0x550e8400_e29b_41d4_a716_446655440001,
        }
    );
}
