//! Room request/response shapes and the rules of the room handlers:
//! capabilities, research suggestions, and room error replies.
use vstd::prelude::*;

use crate::ids::{render_uuid, uuid_text};
use crate::reply::{reply_parts, Reply};
use crate::rooms::content_filter::FilterResult;
use crate::rooms::service::RoomError;
use crate::text::{str_equals, string_of, trim_white_space, trimmed};
use crate::trust::constraints::Eligibility;
use vstd::string::StringExecFns;

verus! {

/// Engine type of a room created without one.
pub fn default_engine_type() -> (r: String)
    ensures
        r@ == "polling"@,
{
    string_of("polling")
}

/// Eligibility topic of a room created without one.
pub fn default_eligibility_topic() -> (r: String)
    ensures
        r@ == "identity_verified"@,
{
    string_of("identity_verified")
}

/// Constraint type of a room created without one.
pub fn default_constraint_type() -> (r: String)
    ensures
        r@ == "endorsed_by_user"@,
{
    string_of("endorsed_by_user")
}

/// What the requesting account may do in a room.
pub struct MyCapabilitiesResponse {
    pub role: String,
    pub can_vote: bool,
    pub can_configure: bool,
    pub reason: Option<String>,
    pub next_step: Option<String>,
}

/// Capabilities decided before the room constraint is consulted: the owner
/// may vote and configure; an account with an assigned role may vote under
/// that role. `None` when neither applies.
pub fn capabilities_before_constraint(is_owner: bool, assigned_role: Option<String>) -> (r: Option<
    MyCapabilitiesResponse,
>)
    ensures
        is_owner ==> (r matches Some(c) && c.role@ == "owner"@ && c.can_vote && c.can_configure
            && c.reason is None && c.next_step is None),
        !is_owner && assigned_role is Some ==> (r matches Some(c) && c.role@
            == assigned_role->0@ && c.can_vote && !c.can_configure && c.reason is None
            && c.next_step is None),
        !is_owner && assigned_role is None ==> r is None,
{
    if is_owner {
        return Some(
            MyCapabilitiesResponse {
                role: string_of("owner"),
                can_vote: true,
                can_configure: true,
                reason: None,
                next_step: None,
            },
        );
    }
    match assigned_role {
        Some(role) => Some(
            MyCapabilitiesResponse {
                role,
                can_vote: true,
                can_configure: false,
                reason: None,
                next_step: None,
            },
        ),
        None => None,
    }
}

/// Capabilities of an account that is neither owner nor assigned a role,
/// from its eligibility under the room constraint: an eligible account
/// participates; any other gets no role, the reason it is ineligible, and a
/// next step that depends on the kind of constraint.
pub fn capabilities_from_eligibility(eligibility: Eligibility, constraint_type: &str) -> (c:
    MyCapabilitiesResponse)
    ensures
        eligibility.is_eligible ==> c.role@ == "participant"@ && c.can_vote && !c.can_configure
            && c.reason is None && c.next_step is None,
        !eligibility.is_eligible ==> c.role@ == "none"@ && !c.can_vote && !c.can_configure
            && c.reason == eligibility.reason && (c.next_step matches Some(s) && s@ == if constraint_type@
            == "endorsed_by_user"@ {
            "Ask the room owner to endorse you"@
        } else {
            "Complete identity verification or get endorsed"@
        }),
{
    if eligibility.is_eligible {
        return MyCapabilitiesResponse {
            role: string_of("participant"),
            can_vote: true,
            can_configure: false,
            reason: None,
            next_step: None,
        };
    }
    let next_step = if crate::text::str_equals(constraint_type, "endorsed_by_user") {
        string_of("Ask the room owner to endorse you")
    } else {
        string_of("Complete identity verification or get endorsed")
    };
    MyCapabilitiesResponse {
        role: string_of("none"),
        can_vote: false,
        can_configure: false,
        reason: eligibility.reason,
        next_step: Some(next_step),
    }
}

/// Body of a research suggestion request.
pub struct CreateSuggestionRequest {
    pub suggestion_text: String,
}

/// Suggestions allowed per account, room and day.
pub const DAILY_SUGGESTION_LIMIT: i64 = 3;

/// Longest suggestion accepted, in characters (Unicode scalar values), as the
/// user-facing "1-500 characters" message says.
pub const SUGGESTION_MAX_CHARS: usize = 500;

/// A suggestion is stored without surrounding whitespace and must then hold
/// between 1 and 500 characters.
pub open spec fn suggestion_text_ok(raw: Seq<char>) -> bool {
    trimmed(raw).len() > 0 && trimmed(raw).len() <= SUGGESTION_MAX_CHARS
}

/// The text of a suggestion as it is stored, or the reply refusing it.
pub fn validate_suggestion_text(raw: &str) -> (r: Result<String, Reply>)
    ensures
        r is Ok <==> suggestion_text_ok(raw@),
        r matches Ok(t) ==> t@ == trimmed(raw@),
        r matches Err(e) ==> (e matches Reply::BadRequest(m) && m@
            == "Suggestion must be 1-500 characters"@),
{
    let text = trim_white_space(raw);
    if text.is_empty() || text.unicode_len() > SUGGESTION_MAX_CHARS {
        return Err(Reply::BadRequest(string_of("Suggestion must be 1-500 characters")));
    }
    Ok(string_of(text))
}

/// The reply refusing a suggestion once `daily_count` suggestions were made
/// today, or `None` while the daily limit is not reached.
pub fn suggestion_limit_reply(daily_count: i64) -> (r: Option<Reply>)
    ensures
        daily_count >= DAILY_SUGGESTION_LIMIT <==> r is Some,
        r matches Some(e) ==> (e matches Reply::BadRequest(m) && m@
            == "Daily suggestion limit reached (3)"@),
{
    if daily_count >= DAILY_SUGGESTION_LIMIT {
        Some(Reply::BadRequest(string_of("Daily suggestion limit reached (3)")))
    } else {
        None
    }
}

/// Status and filter reason stored with a suggestion, from the content filter's verdict.
pub fn suggestion_status(verdict: FilterResult) -> (r: (&'static str, Option<String>))
    ensures
        verdict is Accept ==> r.0@ == "queued"@ && r.1 is None,
        verdict matches FilterResult::Reject { reason } ==> r.0@ == "rejected"@ && r.1 == Some(
            reason,
        ),
{
    match verdict {
        FilterResult::Accept => ("queued", None),
        FilterResult::Reject { reason } => ("rejected", Some(reason)),
    }
}

/// A stored research suggestion, with its times already rendered as RFC 3339.
pub struct SuggestionRecord {
    pub id: u128,
    pub room_id: u128,
    pub poll_id: u128,
    pub account_id: u128,
    pub suggestion_text: String,
    pub status: String,
    pub filter_reason: Option<String>,
    pub evidence_ids: Vec<u128>,
    pub created_at: String,
    pub processed_at: Option<String>,
}

/// A research suggestion as returned to clients.
pub struct SuggestionResponse {
    pub id: u128,
    pub room_id: u128,
    pub poll_id: u128,
    pub account_id: u128,
    pub suggestion_text: String,
    pub status: String,
    pub filter_reason: Option<String>,
    pub evidence_ids: Vec<u128>,
    pub created_at: String,
    pub processed_at: Option<String>,
}

/// The response for a stored suggestion: every field carried over.
pub fn suggestion_to_response(s: SuggestionRecord) -> (r: SuggestionResponse)
    ensures
        r.id == s.id && r.room_id == s.room_id && r.poll_id == s.poll_id && r.account_id
            == s.account_id,
        r.suggestion_text == s.suggestion_text && r.status == s.status && r.filter_reason
            == s.filter_reason,
        r.evidence_ids == s.evidence_ids && r.created_at == s.created_at && r.processed_at
            == s.processed_at,
{
    SuggestionResponse {
        id: s.id,
        room_id: s.room_id,
        poll_id: s.poll_id,
        account_id: s.account_id,
        suggestion_text: s.suggestion_text,
        status: s.status,
        filter_reason: s.filter_reason,
        evidence_ids: s.evidence_ids,
        created_at: s.created_at,
        processed_at: s.processed_at,
    }
}

/// The reply for a failed room operation.
pub fn room_error_reply(e: RoomError) -> (r: Reply)
    ensures
        e matches RoomError::Validation(m) ==> r == Reply::BadRequest(m),
        e is RoomNotFound ==> (r matches Reply::NotFound(m) && m@ == "Room not found"@),
        e is DuplicateRoomName ==> (r matches Reply::Conflict(m) && m@
            == "Room name already exists"@),
        e is Internal ==> r is Internal,
{
    match e {
        RoomError::Validation(msg) => Reply::BadRequest(msg),
        RoomError::RoomNotFound => Reply::NotFound(string_of("Room not found")),
        RoomError::DuplicateRoomName => Reply::Conflict(string_of("Room name already exists")),
        RoomError::Internal(_) => Reply::Internal,
    }
}


/// The endorser written into the constraint of a new room when its creator
/// names none: a room constrained to users endorsed by someone, created
/// without an `endorser_id`, is configured with its creator (rendered as a
/// UUID) as the endorser. `None` when the configuration is kept as given.
pub fn default_endorser(constraint_type: &str, has_endorser_id: bool, creator: u128) -> (r: Option<String>)
    ensures
        (constraint_type@ == "endorsed_by_user"@ && !has_endorser_id) <==> r is Some,
        r matches Some(id) ==> id@ == uuid_text(creator),
{
    if str_equals(constraint_type, "endorsed_by_user") && !has_endorser_id {
        Some(render_uuid(creator))
    } else {
        None
    }
}

/// The reply refusing a room whose engine type is not registered.
pub fn unknown_engine_reply(engine_type: &str) -> (r: Reply)
    ensures
        reply_parts(r) == (400int, "Unknown engine type: "@ + engine_type@),
{
    let mut m = string_of("Unknown engine type: ");
    m.append(engine_type);
    Reply::BadRequest(m)
}

/// The refusal of a role assignment, if any: only the room's owner assigns roles.
pub fn assign_role_reply(owner_id: Option<u128>, account_id: u128) -> (r: Option<Reply>)
    ensures
        (owner_id == Some(account_id)) <==> r is None,
        r matches Some(x) ==> reply_parts(x) == (403int, "Only the room owner can assign roles"@),
{
    match owner_id {
        Some(o) => if o == account_id {
            return None;
        },
        None => {},
    }
    Some(Reply::Forbidden(string_of("Only the room owner can assign roles")))
}

} // verus!
