//! Trust endpoint shapes and rules: the action budget, invite envelopes, and
//! the replies that trust errors are answered with.
use vstd::prelude::*;

use crate::reply::{reply_parts, Reply};
use crate::text::{decimal, string_of, u64_to_decimal, usize_to_decimal};
use crate::trust::service::{
    TrustServiceError, DENOUNCEMENT_SLOT_LIMIT, ENDORSEMENT_SLOT_LIMIT,
};
use vstd::string::StringExecFns;

verus! {

/// A one-line acknowledgement.
pub struct MessageResponse {
    pub message: String,
}

/// An account's endorsement and denouncement budget.
#[derive(Debug, Clone, Copy, PartialEq, Eq, Structural)]
pub struct BudgetResponse {
    pub slots_total: u32,
    pub slots_used: i64,
    pub slots_available: i64,
    pub out_of_slot_count: i64,
    pub denouncements_total: u32,
    pub denouncements_used: i64,
    pub denouncements_available: i64,
}

/// The budget of an account with `endorsements_used` in-slot endorsements,
/// `all_endorsements` active endorsements in all, and `denouncements_used`
/// denouncements filed.
pub fn budget(endorsements_used: i64, all_endorsements: i64, denouncements_used: i64) -> (b:
    BudgetResponse)
    requires
        i64::MIN <= all_endorsements - endorsements_used <= i64::MAX,
        ENDORSEMENT_SLOT_LIMIT - endorsements_used <= i64::MAX,
        DENOUNCEMENT_SLOT_LIMIT - denouncements_used <= i64::MAX,
    ensures
        b.slots_total == ENDORSEMENT_SLOT_LIMIT,
        b.slots_used == endorsements_used,
        b.slots_available == ENDORSEMENT_SLOT_LIMIT - endorsements_used,
        b.out_of_slot_count == all_endorsements - endorsements_used,
        b.denouncements_total == DENOUNCEMENT_SLOT_LIMIT,
        b.denouncements_used == denouncements_used,
        b.denouncements_available == DENOUNCEMENT_SLOT_LIMIT - denouncements_used,
{
    BudgetResponse {
        slots_total: ENDORSEMENT_SLOT_LIMIT,
        slots_used: endorsements_used,
        slots_available: ENDORSEMENT_SLOT_LIMIT as i64 - endorsements_used,
        out_of_slot_count: all_endorsements - endorsements_used,
        denouncements_total: DENOUNCEMENT_SLOT_LIMIT,
        denouncements_used,
        denouncements_available: DENOUNCEMENT_SLOT_LIMIT as i64 - denouncements_used,
    }
}

/// Largest invite envelope accepted, in decoded bytes.
pub const ENVELOPE_MAX_BYTES: usize = 4096;

/// Days an invite stays open.
pub const INVITE_VALID_DAYS: i64 = 7;

/// The refusal of an invite envelope of `len` decoded bytes, if any: an
/// envelope must hold between 1 and [`ENVELOPE_MAX_BYTES`] bytes.
pub fn envelope_len_reply(len: usize) -> (r: Option<Reply>)
    ensures
        (1 <= len <= ENVELOPE_MAX_BYTES) <==> r is None,
        r matches Some(x) ==> reply_parts(x) == (400int, "envelope must be between 1 and 4096 bytes"@),
{
    if len == 0 || len > ENVELOPE_MAX_BYTES {
        Some(Reply::BadRequest(string_of("envelope must be between 1 and 4096 bytes")))
    } else {
        None
    }
}

/// The reply a trust service error is answered with.
pub open spec fn trust_service_error_parts(e: TrustServiceError) -> (int, Seq<char>) {
    match e {
        TrustServiceError::InvalidWeight => (400, "weight must be in range (0.0, 1.0]"@),
        TrustServiceError::InvalidReason { max } => (400, "reason must be between 1 and "@ + decimal(
            max as nat,
        ) + " characters"@),
        TrustServiceError::SelfAction => (400, "Cannot target yourself"@),
        TrustServiceError::QuotaExceeded => (429, "Daily action quota exceeded"@),
        TrustServiceError::DenouncementSlotsExhausted { max } => (429, "Denouncement slots exhausted (max "@
            + decimal(max as nat) + ")"@),
        TrustServiceError::DenouncementConflict => (409, "Cannot endorse a user you have denounced"@),
        TrustServiceError::AlreadyDenounced => (409, "Already denounced this user"@),
        TrustServiceError::Repo(_) => (500, Seq::empty()),
        TrustServiceError::EndorsementRepo(_) => (500, Seq::empty()),
    }
}

/// Answer a trust service error: refusals of the request are client errors,
/// repository failures an internal error.
pub fn trust_service_error_reply(e: &TrustServiceError) -> (r: Reply)
    ensures
        reply_parts(r) == trust_service_error_parts(*e),
{
    match e {
        TrustServiceError::InvalidWeight => Reply::BadRequest(
            string_of("weight must be in range (0.0, 1.0]"),
        ),
        TrustServiceError::InvalidReason { max } => {
            let mut m = string_of("reason must be between 1 and ");
            let n = usize_to_decimal(*max);
            m.append(n.as_str());
            m.append(" characters");
            Reply::BadRequest(m)
        },
        TrustServiceError::SelfAction => Reply::BadRequest(string_of("Cannot target yourself")),
        TrustServiceError::QuotaExceeded => Reply::TooManyRequests(
            string_of("Daily action quota exceeded"),
        ),
        TrustServiceError::DenouncementSlotsExhausted { max } => {
            let mut m = string_of("Denouncement slots exhausted (max ");
            let n = u64_to_decimal(*max as u64);
            m.append(n.as_str());
            m.append(")");
            Reply::TooManyRequests(m)
        },
        TrustServiceError::DenouncementConflict => Reply::Conflict(
            string_of("Cannot endorse a user you have denounced"),
        ),
        TrustServiceError::AlreadyDenounced => Reply::Conflict(
            string_of("Already denounced this user"),
        ),
        TrustServiceError::Repo(_) => Reply::Internal,
        TrustServiceError::EndorsementRepo(_) => Reply::Internal,
    }
}

/// Errors of the trust repository.
#[derive(Debug, Clone, PartialEq, Eq)]
pub enum TrustRepoError {
    NotFound,
    Duplicate,
    /// The database failed (its rendered error).
    Database(String),
}

/// Answer a trust repository error.
pub fn trust_repo_error_reply(e: &TrustRepoError) -> (r: Reply)
    ensures
        reply_parts(r) == match *e {
            TrustRepoError::NotFound => (404int, "Not found"@),
            TrustRepoError::Duplicate => (409int, "Duplicate entry"@),
            TrustRepoError::Database(_) => (500int, Seq::<char>::empty()),
        },
{
    match e {
        TrustRepoError::NotFound => Reply::NotFound(string_of("Not found")),
        TrustRepoError::Duplicate => Reply::Conflict(string_of("Duplicate entry")),
        TrustRepoError::Database(_) => Reply::Internal,
    }
}

/// The refusal of an invite acceptance, if any, from the lookup of the
/// invite (its endorser, or the repository error): nobody accepts their own
/// invite, and a missing invite is not found.
pub fn accept_invite_reply(invite: &Result<u128, TrustRepoError>, account_id: u128) -> (r: Option<Reply>)
    ensures
        match *invite {
            Ok(endorser) => if endorser == account_id {
                r matches Some(x) && reply_parts(x) == (400int, "Cannot accept your own invite"@)
            } else {
                r is None
            },
            Err(TrustRepoError::NotFound) => r matches Some(x) && reply_parts(x) == (
                404int,
                "Invite not found"@,
            ),
            Err(TrustRepoError::Duplicate) => r matches Some(x) && reply_parts(x) == (
                409int,
                "Duplicate entry"@,
            ),
            Err(TrustRepoError::Database(_)) => r matches Some(x) && reply_parts(x) == (
                500int,
                Seq::<char>::empty(),
            ),
        },
{
    match invite {
        Ok(endorser) => if *endorser == account_id {
            Some(Reply::BadRequest(string_of("Cannot accept your own invite")))
        } else {
            None
        },
        Err(TrustRepoError::NotFound) => Some(Reply::NotFound(string_of("Invite not found"))),
        Err(e) => Some(trust_repo_error_reply(e)),
    }
}

} // verus!
