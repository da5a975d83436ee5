//! Ranking-engine request/response shapes and the rules of the ranking
//! handlers: content types, round status names, matchup requests, and
//! ranking error replies.
use vstd::prelude::*;

use crate::ids::{is_last_position, last_index_of, lemma_last_index_is_last, occurs, slot_in, slot_map, lemma_last_index_bounds, parse_uuid, render_uuid, uuid_parse, uuid_text};
use crate::reply::Reply;
use crate::text::{str_equals, string_of};
use vstd::string::StringExecFns;

verus! {

/// A submission as shown while ranking (the author is left out).
pub struct SubmissionResponse {
    pub id: String,
    pub round_id: String,
    pub content_type: String,
    pub url: Option<String>,
    pub image_key: Option<String>,
    pub caption: Option<String>,
    pub created_at: String,
}

/// A submission together with its author.
pub struct SubmissionWithAuthorResponse {
    pub id: String,
    pub round_id: String,
    pub author_id: String,
    pub content_type: String,
    pub url: Option<String>,
    pub image_key: Option<String>,
    pub caption: Option<String>,
    pub created_at: String,
}

/// The next pair of submissions to judge.
pub struct MatchupResponse {
    pub submission_a: SubmissionResponse,
    pub submission_b: SubmissionResponse,
}

/// A recorded matchup.
pub struct MatchupResultResponse {
    pub id: String,
    pub winner_id: Option<String>,
    pub created_at: String,
}

/// A ranking round.
pub struct RoundResponse {
    pub id: String,
    pub room_id: String,
    pub round_number: i32,
    pub submit_opens_at: String,
    pub rank_opens_at: String,
    pub closes_at: String,
    pub status: String,
}

/// Body of a submission request.
pub struct SubmitMemeRequest {
    pub content_type: String,
    pub url: Option<String>,
    pub image_key: Option<String>,
    pub caption: Option<String>,
}

/// Body of a matchup request: a judgement (winner and loser) or a skip of a pair.
pub struct RecordMatchupRequest {
    pub winner_id: Option<String>,
    pub loser_id: Option<String>,
    pub submission_a: Option<String>,
    pub submission_b: Option<String>,
    pub skipped: Option<bool>,
}

/// Paging of leaderboard and hall-of-fame listings.
pub struct PaginationParams {
    pub limit: i64,
    pub offset: i64,
}

/// Page size when none is requested.
pub fn default_limit() -> (r: i64)
    ensures
        r == 20,
{
    20
}

/// Kind of a submission.
#[derive(Debug, Clone, Copy, PartialEq, Eq, Structural)]
pub enum ContentType {
    Url,
    Image,
}

/// Phase of a ranking round.
#[derive(Debug, Clone, Copy, PartialEq, Eq, Structural)]
pub enum RoundStatus {
    Submitting,
    Ranking,
    Closed,
}

/// The name of each content type.
pub open spec fn content_type_name(ct: ContentType) -> Seq<char> {
    match ct {
        ContentType::Url => "url"@,
        ContentType::Image => "image"@,
    }
}

/// The name of each round status.
pub open spec fn round_status_name(st: RoundStatus) -> Seq<char> {
    match st {
        RoundStatus::Submitting => "submitting"@,
        RoundStatus::Ranking => "ranking"@,
        RoundStatus::Closed => "closed"@,
    }
}

/// Name of a content type.
pub fn content_type_to_str(ct: &ContentType) -> (r: &'static str)
    ensures
        r@ == content_type_name(*ct),
{
    match ct {
        ContentType::Url => "url",
        ContentType::Image => "image",
    }
}

/// Name of a round status.
pub fn round_status_to_str(status: &RoundStatus) -> (r: &'static str)
    ensures
        r@ == round_status_name(*status),
{
    match status {
        RoundStatus::Submitting => "submitting",
        RoundStatus::Ranking => "ranking",
        RoundStatus::Closed => "closed",
    }
}

/// The content type named `s`, or the reply refusing an unknown name.
pub fn parse_content_type(s: &str) -> (r: Result<ContentType, Reply>)
    ensures
        s@ == "url"@ ==> r == Ok::<ContentType, Reply>(ContentType::Url),
        s@ == "image"@ ==> r == Ok::<ContentType, Reply>(ContentType::Image),
        s@ != "url"@ && s@ != "image"@ ==> (r matches Err(Reply::BadRequest(m)) && m@
            == "unknown content_type: "@ + s@),
{
    proof {
        reveal_strlit("url");
        reveal_strlit("image");
        assert("url"@[0] != "image"@[0]);
    }
    if str_equals(s, "url") {
        Ok(ContentType::Url)
    } else if str_equals(s, "image") {
        Ok(ContentType::Image)
    } else {
        let mut msg = string_of("unknown content_type: ");
        msg.append(s);
        Err(Reply::BadRequest(msg))
    }
}

/// A stored submission; its time is already rendered as RFC 3339.
pub struct SubmissionRecord {
    pub id: u128,
    pub round_id: u128,
    pub author_id: u128,
    pub content_type: ContentType,
    pub url: Option<String>,
    pub image_key: Option<String>,
    pub caption: Option<String>,
    pub created_at: String,
}

/// A stored round; its times are already rendered as RFC 3339.
pub struct RoundRecord {
    pub id: u128,
    pub room_id: u128,
    pub round_number: i32,
    pub submit_opens_at: String,
    pub rank_opens_at: String,
    pub closes_at: String,
    pub status: RoundStatus,
}

/// A submission as shown while ranking: ids rendered, author left out.
pub fn submission_to_response(s: &SubmissionRecord) -> (r: SubmissionResponse)
    ensures
        r.id@ == uuid_text(s.id),
        r.round_id@ == uuid_text(s.round_id),
        r.content_type@ == content_type_name(s.content_type),
        r.url == s.url && r.image_key == s.image_key && r.caption == s.caption,
        r.created_at == s.created_at,
{
    SubmissionResponse {
        id: render_uuid(s.id),
        round_id: render_uuid(s.round_id),
        content_type: string_of(content_type_to_str(&s.content_type)),
        url: s.url.clone(),
        image_key: s.image_key.clone(),
        caption: s.caption.clone(),
        created_at: s.created_at.clone(),
    }
}

/// A submission with its author: ids rendered.
pub fn submission_to_response_with_author(s: &SubmissionRecord) -> (r: SubmissionWithAuthorResponse)
    ensures
        r.id@ == uuid_text(s.id),
        r.round_id@ == uuid_text(s.round_id),
        r.author_id@ == uuid_text(s.author_id),
        r.content_type@ == content_type_name(s.content_type),
        r.url == s.url && r.image_key == s.image_key && r.caption == s.caption,
        r.created_at == s.created_at,
{
    SubmissionWithAuthorResponse {
        id: render_uuid(s.id),
        round_id: render_uuid(s.round_id),
        author_id: render_uuid(s.author_id),
        content_type: string_of(content_type_to_str(&s.content_type)),
        url: s.url.clone(),
        image_key: s.image_key.clone(),
        caption: s.caption.clone(),
        created_at: s.created_at.clone(),
    }
}

/// A round as returned to clients: ids rendered, status named.
pub fn round_to_response(r: &RoundRecord) -> (out: RoundResponse)
    ensures
        out.id@ == uuid_text(r.id),
        out.room_id@ == uuid_text(r.room_id),
        out.round_number == r.round_number,
        out.submit_opens_at == r.submit_opens_at && out.rank_opens_at == r.rank_opens_at
            && out.closes_at == r.closes_at,
        out.status@ == round_status_name(r.status),
{
    RoundResponse {
        id: render_uuid(r.id),
        room_id: render_uuid(r.room_id),
        round_number: r.round_number,
        submit_opens_at: r.submit_opens_at.clone(),
        rank_opens_at: r.rank_opens_at.clone(),
        closes_at: r.closes_at.clone(),
        status: string_of(round_status_to_str(&r.status)),
    }
}

/// Failures of ranking operations.
#[derive(Debug)]
pub enum RankingError {
    AlreadySubmitted,
    NotInSubmitPhase,
    NoActiveSubmitRound,
    NotInRankingPhase,
    NoActiveRankingRound,
    CannotRankOwn,
    NoMatchupsAvailable,
    InvalidMatchup,
    RoundNotFound,
    Internal(String),
}

/// The reply for a failed ranking operation.
pub fn ranking_error_reply(e: RankingError) -> (r: Reply)
    ensures
        e is AlreadySubmitted ==> (r matches Reply::Conflict(m) && m@
            == "already submitted this round"@),
        (e is NotInSubmitPhase || e is NoActiveSubmitRound) ==> (r matches Reply::BadRequest(m)
            && m@ == "not in submit phase"@),
        (e is NotInRankingPhase || e is NoActiveRankingRound) ==> (r matches Reply::BadRequest(m)
            && m@ == "not in ranking phase"@),
        e is CannotRankOwn ==> (r matches Reply::Forbidden(m) && m@
            == "cannot rank your own submission"@),
        e is NoMatchupsAvailable ==> (r matches Reply::NotFound(m) && m@
            == "no matchups available"@),
        e is InvalidMatchup ==> (r matches Reply::BadRequest(m) && m@
            == "invalid matchup: submissions not in this round"@),
        e is RoundNotFound ==> (r matches Reply::NotFound(m) && m@ == "round not found"@),
        e is Internal ==> r is Internal,
{
    match e {
        RankingError::AlreadySubmitted => Reply::Conflict(string_of("already submitted this round")),
        RankingError::NotInSubmitPhase | RankingError::NoActiveSubmitRound => Reply::BadRequest(
            string_of("not in submit phase"),
        ),
        RankingError::NotInRankingPhase | RankingError::NoActiveRankingRound => Reply::BadRequest(
            string_of("not in ranking phase"),
        ),
        RankingError::CannotRankOwn => Reply::Forbidden(string_of("cannot rank your own submission")),
        RankingError::NoMatchupsAvailable => Reply::NotFound(string_of("no matchups available")),
        RankingError::InvalidMatchup => Reply::BadRequest(
            string_of("invalid matchup: submissions not in this round"),
        ),
        RankingError::RoundNotFound => Reply::NotFound(string_of("round not found")),
        RankingError::Internal(_) => Reply::Internal,
    }
}

/// What a matchup request asks the ranking service to do.
#[derive(Debug, Clone, Copy, PartialEq, Eq, Structural)]
pub enum MatchupAction {
    /// Skip the pair of submissions.
    Skip { submission_a: u128, submission_b: u128 },
    /// Record a judgement.
    Record { winner_id: u128, loser_id: u128 },
}

/// The id named by one field of a matchup request, or the status and
/// message refusing it (`missing` ends the message for an absent field).
pub open spec fn field_id(field: Option<String>, name: Seq<char>, missing: Seq<char>) -> Result<
    u128,
    (int, Seq<char>),
> {
    match field {
        None => Err((400, name + missing)),
        Some(s) => match uuid_parse(s@) {
            Some(id) => Ok(id),
            None => Err((400, "invalid UUID for "@ + name)),
        },
    }
}

fn parse_field(field: &Option<String>, name: &str, suffix: &str) -> (r: Result<u128, Reply>)
    ensures
        field is None ==> (r matches Err(Reply::BadRequest(m)) && m@ == name@ + suffix@),
        field matches Some(s) ==> match uuid_parse(s@) {
            Some(id) => r == Ok::<u128, Reply>(id),
            None => (r matches Err(Reply::BadRequest(m)) && m@ == "invalid UUID for "@ + name@),
        },
{
    match field {
        None => {
            let mut msg = string_of(name);
            msg.append(suffix);
            Err(Reply::BadRequest(msg))
        },
        Some(s) => match parse_uuid(s.as_str()) {
            Ok(id) => Ok(id),
            Err(_) => {
                let mut msg = string_of("invalid UUID for ");
                msg.append(name);
                Err(Reply::BadRequest(msg))
            },
        },
    }
}

/// The action a matchup request asks for, or the reply refusing it: a
/// request with `skipped` set needs both submissions, any other needs a
/// winner and a loser; fields are checked in order, each for presence
/// before it is parsed.
pub fn matchup_action(req: &RecordMatchupRequest) -> (r: Result<MatchupAction, Reply>)
    ensures
        req.skipped == Some(true) ==> match (
            field_id(req.submission_a, "submission_a"@, " required for skip"@),
            field_id(req.submission_b, "submission_b"@, " required for skip"@),
        ) {
            (Err((_, m)), _) => r matches Err(Reply::BadRequest(x)) && x@ == m,
            (Ok(_), Err((_, m))) => r matches Err(Reply::BadRequest(x)) && x@ == m,
            (Ok(a), Ok(b)) => r == Ok::<MatchupAction, Reply>(
                MatchupAction::Skip { submission_a: a, submission_b: b },
            ),
        },
        req.skipped != Some(true) ==> match (
            field_id(req.winner_id, "winner_id"@, " required"@),
            field_id(req.loser_id, "loser_id"@, " required"@),
        ) {
            (Err((_, m)), _) => r matches Err(Reply::BadRequest(x)) && x@ == m,
            (Ok(_), Err((_, m))) => r matches Err(Reply::BadRequest(x)) && x@ == m,
            (Ok(w), Ok(l)) => r == Ok::<MatchupAction, Reply>(
                MatchupAction::Record { winner_id: w, loser_id: l },
            ),
        },
{
    if req.skipped == Some(true) {
        let a = match parse_field(&req.submission_a, "submission_a", " required for skip") {
            Ok(a) => a,
            Err(e) => return Err(e),
        };
        let b = match parse_field(&req.submission_b, "submission_b", " required for skip") {
            Ok(b) => b,
            Err(e) => return Err(e),
        };
        Ok(MatchupAction::Skip { submission_a: a, submission_b: b })
    } else {
        let w = match parse_field(&req.winner_id, "winner_id", " required") {
            Ok(w) => w,
            Err(e) => return Err(e),
        };
        let l = match parse_field(&req.loser_id, "loser_id", " required") {
            Ok(l) => l,
            Err(e) => return Err(e),
        };
        Ok(MatchupAction::Record { winner_id: w, loser_id: l })
    }
}


/// The leaderboard rows of a round, from its ratings (best first, by
/// submission id) and its submissions (by id): for each rating whose
/// submission is listed, in order, the rating's position and the position
/// of its submission (the last listed with that id).
pub open spec fn leaderboard_rows(rated: Seq<u128>, submissions: Seq<u128>) -> Seq<(int, int)>
    decreases rated.len(),
{
    if rated.len() == 0 {
        Seq::empty()
    } else {
        let prev = leaderboard_rows(rated.drop_last(), submissions);
        let j = last_index_of(submissions, rated.last());
        if j >= 0 {
            prev.push((rated.len() - 1, j))
        } else {
            prev
        }
    }
}

/// A leaderboard row by position: the rating, its submission, and its rank.
#[derive(Debug, Clone, Copy, PartialEq, Eq, Structural)]
pub struct LeaderboardSlot {
    pub rating_index: usize,
    pub submission_index: usize,
    /// One more than the rating's position among all ratings, so ratings
    /// without a listed submission still use up their rank.
    pub rank: i32,
}

proof fn lemma_leaderboard_rows_bounded(rated: Seq<u128>, submissions: Seq<u128>)
    ensures
        leaderboard_rows(rated, submissions).len() <= rated.len(),
        forall|k: int|
            0 <= k < leaderboard_rows(rated, submissions).len() ==> {
                let row = #[trigger] leaderboard_rows(rated, submissions)[k];
                0 <= row.0 < rated.len() && 0 <= row.1 < submissions.len()
            },
    decreases rated.len(),
{
    if rated.len() > 0 {
        lemma_leaderboard_rows_bounded(rated.drop_last(), submissions);
        lemma_last_index_bounds(submissions, rated.last());
    }
}

/// Join a round's ratings (best first, by submission id) with its
/// submissions (by id): one row per rating whose submission is listed.
pub fn leaderboard_slots(rated: &Vec<u128>, submissions: &Vec<u128>) -> (out: Vec<LeaderboardSlot>)
    requires
        rated@.len() <= i32::MAX,
    ensures
        out@.len() == leaderboard_rows(rated@, submissions@).len(),
        forall|k: int|
            #![trigger out@[k]]
            0 <= k < out@.len() ==> {
                let row = leaderboard_rows(rated@, submissions@)[k];
                &&& out@[k].rating_index == row.0
                &&& out@[k].submission_index == row.1
                &&& out@[k].rank == row.0 + 1
            },
{
    let slots = slot_map(submissions);
    let mut out: Vec<LeaderboardSlot> = Vec::new();
    let mut i: usize = 0;
    while i < rated.len()
        invariant
            i <= rated@.len() <= i32::MAX,
            forall|id: u128| #[trigger] slots@.contains_key(id) <==> last_index_of(submissions@, id) >= 0,
            forall|id: u128| slots@.contains_key(id) ==> #[trigger] slots@[id] as int == last_index_of(submissions@, id),
            out@.len() == leaderboard_rows(rated@.take(i as int), submissions@).len(),
            forall|k: int|
                #![trigger out@[k]]
                0 <= k < out@.len() ==> {
                    let row = leaderboard_rows(rated@.take(i as int), submissions@)[k];
                    &&& out@[k].rating_index == row.0
                    &&& out@[k].submission_index == row.1
                    &&& out@[k].rank == row.0 + 1
                },
        decreases rated@.len() - i,
    {
        let ghost before = rated@.take(i as int);
        assert(rated@.take(i + 1).drop_last() =~= before);
        proof {
            lemma_leaderboard_rows_bounded(before, submissions@);
        }
        match slot_in(&slots, rated[i]) {
            Some(j) => {
                out.push(LeaderboardSlot { rating_index: i, submission_index: j, rank: (i + 1) as i32 });
            },
            None => {},
        }
        i = i + 1;
    }
    assert(rated@.take(rated@.len() as int) =~= rated@);
    out
}

/// The hall-of-fame rows of a room, from its entries (submission id, round
/// id), its submissions and its rounds (by id): for each entry whose
/// submission and round are both listed, in order, the entry's position and
/// the positions of its submission and round (the last listed with each id).
pub open spec fn hall_of_fame_rows(entries: Seq<(u128, u128)>, submissions: Seq<u128>, rounds: Seq<u128>) -> Seq<(int, int, int)>
    decreases entries.len(),
{
    if entries.len() == 0 {
        Seq::empty()
    } else {
        let prev = hall_of_fame_rows(entries.drop_last(), submissions, rounds);
        let j = last_index_of(submissions, entries.last().0);
        let r = last_index_of(rounds, entries.last().1);
        if j >= 0 && r >= 0 {
            prev.push((entries.len() - 1, j, r))
        } else {
            prev
        }
    }
}

/// Join hall-of-fame entries (submission id, round id) with the submissions
/// and rounds they name: one (entry, submission, round) position triple per
/// entry whose submission and round are both listed.
pub fn hall_of_fame_slots(entries: &Vec<(u128, u128)>, submissions: &Vec<u128>, rounds: &Vec<u128>) -> (out: Vec<(usize, usize, usize)>)
    ensures
        out@.len() == hall_of_fame_rows(entries@, submissions@, rounds@).len(),
        forall|k: int|
            #![trigger out@[k]]
            0 <= k < out@.len() ==> {
                let row = hall_of_fame_rows(entries@, submissions@, rounds@)[k];
                out@[k].0 == row.0 && out@[k].1 == row.1 && out@[k].2 == row.2
            },
{
    let sub_slots = slot_map(submissions);
    let round_slots = slot_map(rounds);
    let mut out: Vec<(usize, usize, usize)> = Vec::new();
    let mut i: usize = 0;
    while i < entries.len()
        invariant
            i <= entries@.len(),
            forall|id: u128| #[trigger] sub_slots@.contains_key(id) <==> last_index_of(submissions@, id) >= 0,
            forall|id: u128| sub_slots@.contains_key(id) ==> #[trigger] sub_slots@[id] as int == last_index_of(submissions@, id),
            forall|id: u128| #[trigger] round_slots@.contains_key(id) <==> last_index_of(rounds@, id) >= 0,
            forall|id: u128| round_slots@.contains_key(id) ==> #[trigger] round_slots@[id] as int == last_index_of(rounds@, id),
            out@.len() == hall_of_fame_rows(entries@.take(i as int), submissions@, rounds@).len(),
            forall|k: int|
                #![trigger out@[k]]
                0 <= k < out@.len() ==> {
                    let row = hall_of_fame_rows(entries@.take(i as int), submissions@, rounds@)[k];
                    out@[k].0 == row.0 && out@[k].1 == row.1 && out@[k].2 == row.2
                },
        decreases entries@.len() - i,
    {
        assert(entries@.take(i + 1).drop_last() =~= entries@.take(i as int));
        let (sub_id, round_id) = entries[i];
        match (slot_in(&sub_slots, sub_id), slot_in(&round_slots, round_id)) {
            (Some(j), Some(r)) => {
                out.push((i, j, r));
            },
            _ => {},
        }
        i = i + 1;
    }
    assert(entries@.take(entries@.len() as int) =~= entries@);
    out
}


/// What the leaderboard holds: the ratings whose submission is listed, in
/// rating order, each with the position of its submission (the last listed
/// with that id); every rating whose submission is listed has its row.
pub proof fn lemma_leaderboard_rows_join(rated: Seq<u128>, submissions: Seq<u128>)
    ensures
        forall|k: int|
            0 <= k < leaderboard_rows(rated, submissions).len() ==> {
                let row = #[trigger] leaderboard_rows(rated, submissions)[k];
                &&& 0 <= row.0 < rated.len()
                &&& is_last_position(submissions, row.1, rated[row.0])
            },
        forall|k1: int, k2: int|
            0 <= k1 < k2 < leaderboard_rows(rated, submissions).len() ==> #[trigger] leaderboard_rows(
                rated,
                submissions,
            )[k1].0 < #[trigger] leaderboard_rows(rated, submissions)[k2].0,
        forall|i: int|
            0 <= i < rated.len() && #[trigger] occurs(submissions, rated[i]) ==> exists|k: int|
                0 <= k < leaderboard_rows(rated, submissions).len() && #[trigger] leaderboard_rows(
                    rated,
                    submissions,
                )[k].0 == i,
    decreases rated.len(),
{
    if rated.len() > 0 {
        let d = rated.drop_last();
        lemma_leaderboard_rows_join(d, submissions);
        lemma_last_index_is_last(submissions, rated.last());
        let prev = leaderboard_rows(d, submissions);
        let rows = leaderboard_rows(rated, submissions);
        assert forall|k: int| 0 <= k < prev.len() implies #[trigger] rows[k] == prev[k] by {}
        assert forall|k: int| 0 <= k < prev.len() implies rated[(#[trigger] prev[k]).0] == d[prev[k].0] by {}
        assert forall|i: int| 0 <= i < rated.len() && #[trigger] occurs(submissions, rated[i]) implies exists|k: int|
            0 <= k < rows.len() && #[trigger] rows[k].0 == i by {
            if i < d.len() {
                assert(d[i] == rated[i]);
                assert(occurs(submissions, d[i]));
                let k = choose|k: int| 0 <= k < prev.len() && #[trigger] prev[k].0 == i;
                assert(rows[k] == prev[k]);
            } else {
                assert(rows[rows.len() - 1].0 == i);
            }
        }
    }
}

/// What the hall of fame holds: the entries whose submission and round are
/// both listed, in entry order, each with the positions of its submission
/// and of its round (the last listed with each id); every such entry has
/// its row.
pub proof fn lemma_hall_of_fame_rows_join(entries: Seq<(u128, u128)>, submissions: Seq<u128>, rounds: Seq<u128>)
    ensures
        forall|k: int|
            0 <= k < hall_of_fame_rows(entries, submissions, rounds).len() ==> {
                let row = #[trigger] hall_of_fame_rows(entries, submissions, rounds)[k];
                &&& 0 <= row.0 < entries.len()
                &&& is_last_position(submissions, row.1, entries[row.0].0)
                &&& is_last_position(rounds, row.2, entries[row.0].1)
            },
        forall|k1: int, k2: int|
            0 <= k1 < k2 < hall_of_fame_rows(entries, submissions, rounds).len() ==> #[trigger] hall_of_fame_rows(
                entries,
                submissions,
                rounds,
            )[k1].0 < #[trigger] hall_of_fame_rows(entries, submissions, rounds)[k2].0,
        forall|i: int|
            0 <= i < entries.len() && #[trigger] occurs(submissions, entries[i].0) && #[trigger] occurs(
                rounds,
                entries[i].1,
            ) ==> exists|k: int|
                0 <= k < hall_of_fame_rows(entries, submissions, rounds).len() && #[trigger] hall_of_fame_rows(
                    entries,
                    submissions,
                    rounds,
                )[k].0 == i,
    decreases entries.len(),
{
    if entries.len() > 0 {
        let d = entries.drop_last();
        lemma_hall_of_fame_rows_join(d, submissions, rounds);
        lemma_last_index_is_last(submissions, entries.last().0);
        lemma_last_index_is_last(rounds, entries.last().1);
        let prev = hall_of_fame_rows(d, submissions, rounds);
        let rows = hall_of_fame_rows(entries, submissions, rounds);
        assert forall|k: int| 0 <= k < prev.len() implies #[trigger] rows[k] == prev[k] by {}
        assert forall|k: int| 0 <= k < prev.len() implies entries[(#[trigger] prev[k]).0] == d[prev[k].0] by {}
        assert forall|i: int|
            0 <= i < entries.len() && #[trigger] occurs(submissions, entries[i].0) && #[trigger] occurs(
                rounds,
                entries[i].1,
            ) implies exists|k: int| 0 <= k < rows.len() && #[trigger] rows[k].0 == i by {
            if i < d.len() {
                assert(d[i] == entries[i]);
                assert(occurs(submissions, d[i].0) && occurs(rounds, d[i].1));
                let k = choose|k: int| 0 <= k < prev.len() && #[trigger] prev[k].0 == i;
                assert(rows[k] == prev[k]);
            } else {
                assert(rows[rows.len() - 1].0 == i);
            }
        }
    }
}

} // verus!
