//! Trust action rules: the action types, and the limits that the service
//! applies before an action is queued.
use vstd::prelude::*;

use crate::text::{decimal, has_visible_char, has_visible_text, str_equals, string_of, u64_to_decimal, usize_to_decimal};
use vstd::string::StringExecFns;
use vstd::string::StrSliceExecFns;

verus! {

/// Demo endorsement slot limit per user (k=3).
pub const ENDORSEMENT_SLOT_LIMIT: u32 = 3;

/// Permanent denouncement budget per user (d=2).
pub const DENOUNCEMENT_SLOT_LIMIT: u32 = 2;

/// Max trust actions per user per day (resets at midnight UTC).
pub const DAILY_ACTION_QUOTA: i64 = 5;

/// Maximum character count of a denouncement reason (the user-facing "500 characters" limit).
pub const DENOUNCEMENT_REASON_MAX_LEN: usize = 500;

/// A denouncement reason is acceptable: it holds a character other than
/// whitespace, and it has at most `DENOUNCEMENT_REASON_MAX_LEN` characters.
pub open spec fn valid_reason(reason: Seq<char>) -> bool {
    has_visible_char(reason) && reason.len() <= DENOUNCEMENT_REASON_MAX_LEN
}

/// Returns `true` if `reason` is a valid denouncement reason: non-empty, not whitespace-only,
/// and within the max length.
///
/// Uses Unicode scalar value (character) count, not byte count, so that multi-byte scripts
/// are measured the same way as the user-facing error message. Whitespace-only strings are
/// rejected; trimming is not applied.
pub fn is_valid_reason(reason: &str) -> (r: bool)
    ensures
        r == valid_reason(reason@),
{
    has_visible_text(reason) && reason.unicode_len() <= DENOUNCEMENT_REASON_MAX_LEN
}

/// The canonical set of trust action types, shared between the service (write) and
/// the worker (read/parse).
#[derive(Debug, Clone, Copy, PartialEq, Eq, Structural)]
pub enum ActionType {
    Endorse,
    Revoke,
    Denounce,
}

/// The stored name of each action type.
pub open spec fn action_type_name(a: ActionType) -> Seq<char> {
    match a {
        ActionType::Endorse => "endorse"@,
        ActionType::Revoke => "revoke"@,
        ActionType::Denounce => "denounce"@,
    }
}

impl ActionType {
    /// The name stored in the action log.
    pub fn as_str(self) -> (r: &'static str)
        ensures
            r@ == action_type_name(self),
    {
        match self {
            Self::Endorse => "endorse",
            Self::Revoke => "revoke",
            Self::Denounce => "denounce",
        }
    }

    /// Parse an action type from its string representation, returning `None`
    /// for unrecognised values.
    pub fn from_str_opt(s: &str) -> (r: Option<Self>)
        ensures
            r == parse_action_type(s@),
    {
        if str_equals(s, "endorse") {
            Some(Self::Endorse)
        } else if str_equals(s, "revoke") {
            Some(Self::Revoke)
        } else if str_equals(s, "denounce") {
            Some(Self::Denounce)
        } else {
            None
        }
    }
}

/// The action type whose stored name is `s`, if any (names are case-sensitive).
pub open spec fn parse_action_type(s: Seq<char>) -> Option<ActionType> {
    if s == "endorse"@ {
        Some(ActionType::Endorse)
    } else if s == "revoke"@ {
        Some(ActionType::Revoke)
    } else if s == "denounce"@ {
        Some(ActionType::Denounce)
    } else {
        None
    }
}

/// Every action type survives a round trip through its stored name, so no
/// two action types share a name.
pub proof fn lemma_action_type_round_trip(a: ActionType)
    ensures
        parse_action_type(action_type_name(a)) == Some(a),
{
    reveal_strlit("endorse");
    reveal_strlit("revoke");
    reveal_strlit("denounce");
    assert("endorse"@[0] != "revoke"@[0]);
    assert("endorse"@[0] != "denounce"@[0]);
    assert("revoke"@[0] != "denounce"@[0]);
}

/// A string parses to an action type exactly when it is that type's stored name.
pub proof fn lemma_action_type_parse_inverts_name(s: Seq<char>, a: ActionType)
    ensures
        parse_action_type(s) == Some(a) <==> s == action_type_name(a),
{
    lemma_action_type_round_trip(a);
}

/// Errors returned by trust service operations.
#[derive(Debug, Clone, PartialEq, Eq)]
pub enum TrustServiceError {
    DenouncementSlotsExhausted { max: u32 },
    QuotaExceeded,
    SelfAction,
    DenouncementConflict,
    AlreadyDenounced,
    InvalidWeight,
    InvalidReason { max: usize },
    /// A trust repository call failed (its rendered error).
    Repo(String),
    /// An endorsement repository call failed (its rendered error).
    EndorsementRepo(String),
}

/// The text a trust service error is shown with.
pub open spec fn trust_service_error_text(e: TrustServiceError) -> Seq<char> {
    match e {
        TrustServiceError::DenouncementSlotsExhausted { max } => "denouncement slots exhausted (max "@
            + decimal(max as nat) + ")"@,
        TrustServiceError::QuotaExceeded => "daily action quota exceeded"@,
        TrustServiceError::SelfAction => "cannot target yourself"@,
        TrustServiceError::DenouncementConflict => "cannot endorse a user you have denounced"@,
        TrustServiceError::AlreadyDenounced => "already denounced this user"@,
        TrustServiceError::InvalidWeight => "weight must be in range (0.0, 1.0]"@,
        TrustServiceError::InvalidReason { max } => "reason must be between 1 and "@ + decimal(
            max as nat,
        ) + " characters"@,
        TrustServiceError::Repo(m) => "repository error: "@ + m@,
        TrustServiceError::EndorsementRepo(m) => "endorsement repo error: "@ + m@,
    }
}

impl TrustServiceError {
    /// The text this error is shown with.
    pub fn message(&self) -> (r: String)
        ensures
            r@ == trust_service_error_text(*self),
    {
        match self {
            TrustServiceError::DenouncementSlotsExhausted { max } => {
                let mut r = string_of("denouncement slots exhausted (max ");
                let n = u64_to_decimal(*max as u64);
                r.append(n.as_str());
                r.append(")");
                r
            },
            TrustServiceError::QuotaExceeded => string_of("daily action quota exceeded"),
            TrustServiceError::SelfAction => string_of("cannot target yourself"),
            TrustServiceError::DenouncementConflict => string_of(
                "cannot endorse a user you have denounced",
            ),
            TrustServiceError::AlreadyDenounced => string_of("already denounced this user"),
            TrustServiceError::InvalidWeight => string_of("weight must be in range (0.0, 1.0]"),
            TrustServiceError::InvalidReason { max } => {
                let mut r = string_of("reason must be between 1 and ");
                let n = usize_to_decimal(*max);
                r.append(n.as_str());
                r.append(" characters");
                r
            },
            TrustServiceError::Repo(m) => {
                let mut r = string_of("repository error: ");
                r.append(m.as_str());
                r
            },
            TrustServiceError::EndorsementRepo(m) => {
                let mut r = string_of("endorsement repo error: ");
                r.append(m.as_str());
                r
            },
        }
    }
}

/// The topic of the endorsement that makes an account an authorized verifier.
pub const VERIFIER_TOPIC: &'static str = "authorized_verifier";

/// A repository question the trust service asks before it decides, naming
/// the accounts it is asked about.
#[derive(Debug, Clone, Copy, PartialEq, Eq, Structural)]
pub enum TrustQuery {
    /// How many actions `actor` has taken today.
    DailyActionCount { actor: u128 },
    /// Whether `accuser` has an active denouncement against `target`.
    ActiveDenouncement { accuser: u128, target: u128 },
    /// Whether `account` holds an endorsement on the `VERIFIER_TOPIC` topic.
    IsVerifier { account: u128 },
    /// How many active trust endorsements `endorser` has.
    ActiveEndorsementCount { endorser: u128 },
    /// How many denouncements `accuser` has ever filed.
    TotalDenouncementCount { accuser: u128 },
}

/// The action queued, with the accounts its payload names.
#[derive(Debug, Clone, Copy, PartialEq, Eq, Structural)]
pub enum QueuedAction {
    /// An endorsement of `subject`; `in_slot` tells whether it takes one of
    /// the actor's endorsement slots.
    Endorse { subject: u128, in_slot: bool },
    /// A revocation of the endorsement of `subject`.
    Revoke { subject: u128 },
    /// A denouncement of `target` (for the reason the request gave).
    Denounce { target: u128 },
}

impl QueuedAction {
    /// The type under which the action is queued.
    pub fn action_type(&self) -> (t: ActionType)
        ensures
            self is Endorse <==> t == ActionType::Endorse,
            self is Revoke <==> t == ActionType::Revoke,
            self is Denounce <==> t == ActionType::Denounce,
    {
        match self {
            QueuedAction::Endorse { .. } => ActionType::Endorse,
            QueuedAction::Revoke { .. } => ActionType::Revoke,
            QueuedAction::Denounce { .. } => ActionType::Denounce,
        }
    }
}

/// What the trust service does next with an operation.
#[derive(Debug, Clone, PartialEq, Eq)]
pub enum TrustDecision {
    /// Ask the repositories this question, record the answer, and decide again.
    Ask(TrustQuery),
    /// Refuse the operation.
    Reject(TrustServiceError),
    /// Queue `action` on behalf of `actor`.
    Enqueue { actor: u128, action: QueuedAction },
}

/// The answers gathered so far (`None` until the question was asked).
#[derive(Debug, Clone, Copy, PartialEq, Eq, Structural)]
pub struct TrustFacts {
    pub daily_actions: Option<i64>,
    pub denounced: Option<bool>,
    pub is_verifier: Option<bool>,
    pub active_endorsements: Option<i64>,
    pub total_denouncements: Option<i64>,
}

impl TrustFacts {
    /// No question answered yet.
    pub fn none() -> (f: Self)
        ensures
            f.daily_actions is None && f.denounced is None && f.is_verifier is None
                && f.active_endorsements is None && f.total_denouncements is None,
    {
        TrustFacts {
            daily_actions: None,
            denounced: None,
            is_verifier: None,
            active_endorsements: None,
            total_denouncements: None,
        }
    }
}

/// The question `q` is still open in `facts`. A decision only ever asks an
/// open question, so answering what is asked ends after at most five rounds.
pub open spec fn is_open_question(facts: TrustFacts, q: TrustQuery) -> bool {
    match q {
        TrustQuery::DailyActionCount { .. } => facts.daily_actions is None,
        TrustQuery::ActiveDenouncement { .. } => facts.denounced is None,
        TrustQuery::IsVerifier { .. } => facts.is_verifier is None,
        TrustQuery::ActiveEndorsementCount { .. } => facts.active_endorsements is None,
        TrustQuery::TotalDenouncementCount { .. } => facts.total_denouncements is None,
    }
}

/// The daily-quota guard on `actor`: ask for the count, then refuse at or
/// past the quota.
pub open spec fn quota_gate(actor: u128, facts: TrustFacts) -> Option<TrustDecision> {
    match facts.daily_actions {
        None => Some(TrustDecision::Ask(TrustQuery::DailyActionCount { actor })),
        Some(n) => if n >= DAILY_ACTION_QUOTA {
            Some(TrustDecision::Reject(TrustServiceError::QuotaExceeded))
        } else {
            None
        },
    }
}

/// The decision on an endorsement of `subject` by `endorser` (`weight_ok`
/// tells whether the weight lies in (0.0, 1.0]): refuse a self-endorsement,
/// then an invalid weight, then a spent daily quota, then an endorsement of
/// someone the endorser has denounced; else queue it, in a slot when the
/// endorser is a verifier or holds fewer active endorsements than the limit.
pub open spec fn endorse_decision(endorser: u128, subject: u128, weight_ok: bool, facts: TrustFacts) -> TrustDecision {
    if endorser == subject {
        TrustDecision::Reject(TrustServiceError::SelfAction)
    } else if !weight_ok {
        TrustDecision::Reject(TrustServiceError::InvalidWeight)
    } else if quota_gate(endorser, facts) is Some {
        quota_gate(endorser, facts)->0
    } else {
        match facts.denounced {
            None => TrustDecision::Ask(
                TrustQuery::ActiveDenouncement { accuser: endorser, target: subject },
            ),
            Some(true) => TrustDecision::Reject(TrustServiceError::DenouncementConflict),
            Some(false) => match facts.is_verifier {
                None => TrustDecision::Ask(TrustQuery::IsVerifier { account: endorser }),
                Some(true) => TrustDecision::Enqueue {
                    actor: endorser,
                    action: QueuedAction::Endorse { subject, in_slot: true },
                },
                Some(false) => match facts.active_endorsements {
                    None => TrustDecision::Ask(TrustQuery::ActiveEndorsementCount { endorser }),
                    Some(n) => TrustDecision::Enqueue {
                        actor: endorser,
                        action: QueuedAction::Endorse { subject, in_slot: n < ENDORSEMENT_SLOT_LIMIT },
                    },
                },
            },
        }
    }
}

/// The decision on revoking `endorser`'s endorsement of `subject`: refuse a
/// self-revocation, then a spent daily quota; else queue it.
pub open spec fn revoke_decision(endorser: u128, subject: u128, facts: TrustFacts) -> TrustDecision {
    if endorser == subject {
        TrustDecision::Reject(TrustServiceError::SelfAction)
    } else if quota_gate(endorser, facts) is Some {
        quota_gate(endorser, facts)->0
    } else {
        TrustDecision::Enqueue { actor: endorser, action: QueuedAction::Revoke { subject } }
    }
}

/// The decision on `accuser` denouncing `target` for `reason`: refuse a
/// self-denouncement, then an invalid reason, then a second denouncement of
/// the same target, then a spent daily quota, then a spent denouncement
/// budget; else queue it.
pub open spec fn denounce_decision(accuser: u128, target: u128, reason: Seq<char>, facts: TrustFacts) -> TrustDecision {
    if accuser == target {
        TrustDecision::Reject(TrustServiceError::SelfAction)
    } else if !valid_reason(reason) {
        TrustDecision::Reject(TrustServiceError::InvalidReason { max: DENOUNCEMENT_REASON_MAX_LEN })
    } else {
        match facts.denounced {
            None => TrustDecision::Ask(TrustQuery::ActiveDenouncement { accuser, target }),
            Some(true) => TrustDecision::Reject(TrustServiceError::AlreadyDenounced),
            Some(false) => if quota_gate(accuser, facts) is Some {
                quota_gate(accuser, facts)->0
            } else {
                match facts.total_denouncements {
                    None => TrustDecision::Ask(TrustQuery::TotalDenouncementCount { accuser }),
                    Some(n) => if n >= DENOUNCEMENT_SLOT_LIMIT {
                        TrustDecision::Reject(
                            TrustServiceError::DenouncementSlotsExhausted { max: DENOUNCEMENT_SLOT_LIMIT },
                        )
                    } else {
                        TrustDecision::Enqueue { actor: accuser, action: QueuedAction::Denounce { target } }
                    },
                }
            },
        }
    }
}

fn quota_step(actor: u128, facts: &TrustFacts) -> (r: Option<TrustDecision>)
    ensures
        r == quota_gate(actor, *facts),
{
    match facts.daily_actions {
        None => Some(TrustDecision::Ask(TrustQuery::DailyActionCount { actor })),
        Some(n) => if n >= DAILY_ACTION_QUOTA {
            Some(TrustDecision::Reject(TrustServiceError::QuotaExceeded))
        } else {
            None
        },
    }
}

/// Decide the next step of an endorsement from the answers gathered so far.
pub fn decide_endorse(endorser: u128, subject: u128, weight_ok: bool, facts: &TrustFacts) -> (d: TrustDecision)
    ensures
        d matches TrustDecision::Ask(q) ==> is_open_question(*facts, q),
        d == endorse_decision(endorser, subject, weight_ok, *facts),
        d is Enqueue ==> endorser != subject && weight_ok && (facts.daily_actions matches Some(n)
            && n < DAILY_ACTION_QUOTA) && facts.denounced == Some(false),
{
    if endorser == subject {
        return TrustDecision::Reject(TrustServiceError::SelfAction);
    }
    if !weight_ok {
        return TrustDecision::Reject(TrustServiceError::InvalidWeight);
    }
    match quota_step(endorser, facts) {
        Some(d) => return d,
        None => {},
    }
    match facts.denounced {
        None => TrustDecision::Ask(
            TrustQuery::ActiveDenouncement { accuser: endorser, target: subject },
        ),
        Some(true) => TrustDecision::Reject(TrustServiceError::DenouncementConflict),
        Some(false) => match facts.is_verifier {
            None => TrustDecision::Ask(TrustQuery::IsVerifier { account: endorser }),
            Some(true) => TrustDecision::Enqueue {
                actor: endorser,
                action: QueuedAction::Endorse { subject, in_slot: true },
            },
            Some(false) => match facts.active_endorsements {
                None => TrustDecision::Ask(TrustQuery::ActiveEndorsementCount { endorser }),
                Some(n) => TrustDecision::Enqueue {
                    actor: endorser,
                    action: QueuedAction::Endorse {
                        subject,
                        in_slot: n < ENDORSEMENT_SLOT_LIMIT as i64,
                    },
                },
            },
        },
    }
}

/// Decide the next step of a revocation from the answers gathered so far.
pub fn decide_revoke(endorser: u128, subject: u128, facts: &TrustFacts) -> (d: TrustDecision)
    ensures
        d matches TrustDecision::Ask(q) ==> is_open_question(*facts, q),
        d == revoke_decision(endorser, subject, *facts),
        d is Enqueue ==> endorser != subject && (facts.daily_actions matches Some(n) && n
            < DAILY_ACTION_QUOTA),
{
    if endorser == subject {
        return TrustDecision::Reject(TrustServiceError::SelfAction);
    }
    match quota_step(endorser, facts) {
        Some(d) => d,
        None => TrustDecision::Enqueue { actor: endorser, action: QueuedAction::Revoke { subject } },
    }
}

/// Decide the next step of a denouncement from the answers gathered so far.
pub fn decide_denounce(accuser: u128, target: u128, reason: &str, facts: &TrustFacts) -> (d: TrustDecision)
    ensures
        d matches TrustDecision::Ask(q) ==> is_open_question(*facts, q),
        d == denounce_decision(accuser, target, reason@, *facts),
        d is Enqueue ==> accuser != target && valid_reason(reason@) && facts.denounced == Some(
            false,
        ) && (facts.daily_actions matches Some(n) && n < DAILY_ACTION_QUOTA) && (
        facts.total_denouncements matches Some(t) && t < DENOUNCEMENT_SLOT_LIMIT),
{
    if accuser == target {
        return TrustDecision::Reject(TrustServiceError::SelfAction);
    }
    if !is_valid_reason(reason) {
        return TrustDecision::Reject(
            TrustServiceError::InvalidReason { max: DENOUNCEMENT_REASON_MAX_LEN },
        );
    }
    match facts.denounced {
        None => TrustDecision::Ask(TrustQuery::ActiveDenouncement { accuser, target }),
        Some(true) => TrustDecision::Reject(TrustServiceError::AlreadyDenounced),
        Some(false) => match quota_step(accuser, facts) {
            Some(d) => d,
            None => match facts.total_denouncements {
                None => TrustDecision::Ask(TrustQuery::TotalDenouncementCount { accuser }),
                Some(n) => if n >= DENOUNCEMENT_SLOT_LIMIT as i64 {
                    TrustDecision::Reject(
                        TrustServiceError::DenouncementSlotsExhausted { max: DENOUNCEMENT_SLOT_LIMIT },
                    )
                } else {
                    TrustDecision::Enqueue { actor: accuser, action: QueuedAction::Denounce { target } }
                },
            },
        },
    }
}


/// The guards every queued action passed: a daily action count was read and
/// lies below the quota.
pub open spec fn within_quota(facts: TrustFacts) -> bool {
    facts.daily_actions matches Some(q) && q < DAILY_ACTION_QUOTA
}

/// The endorser has a free endorsement slot: it is a verifier, or holds
/// fewer active endorsements than the slot limit.
pub open spec fn endorser_has_slot(facts: TrustFacts) -> bool {
    ||| facts.is_verifier == Some(true)
    ||| (facts.is_verifier == Some(false) && (facts.active_endorsements matches Some(n) && n
        < ENDORSEMENT_SLOT_LIMIT))
}

/// What a queued endorsement is: it is queued for the endorser and names
/// the subject, only for another account, with a valid weight, within the
/// quota and without a denouncement of the subject; it takes a slot exactly
/// when the endorser is a verifier or holds fewer active endorsements than
/// the slot limit. Once those facts are known it is always queued.
pub proof fn lemma_endorsement_queue(endorser: u128, subject: u128, weight_ok: bool, facts: TrustFacts)
    ensures
        endorse_decision(endorser, subject, weight_ok, facts) is Enqueue ==> {
            &&& endorser != subject
            &&& weight_ok
            &&& within_quota(facts)
            &&& facts.denounced == Some(false)
        },
        endorse_decision(endorser, subject, weight_ok, facts) matches TrustDecision::Enqueue { actor, action } ==> {
            &&& actor == endorser
            &&& action matches QueuedAction::Endorse { subject: s, in_slot } && s == subject && (in_slot
                <==> endorser_has_slot(facts))
        },
        endorser != subject && weight_ok && within_quota(facts) && facts.denounced == Some(false)
            && (facts.is_verifier == Some(true) || (facts.is_verifier == Some(false)
            && facts.active_endorsements is Some)) ==> endorse_decision(endorser, subject, weight_ok, facts) is Enqueue,
{
}

/// A non-verifier holding `n` active endorsements, with every guard passed,
/// has the endorsement queued in a slot exactly when `n` is below the limit.
pub proof fn lemma_endorsement_slot_by_count(endorser: u128, subject: u128, facts: TrustFacts, n: i64)
    requires
        endorser != subject,
        within_quota(facts),
        facts.denounced == Some(false),
        facts.is_verifier == Some(false),
        facts.active_endorsements == Some(n),
    ensures
        endorse_decision(endorser, subject, true, facts) == (TrustDecision::Enqueue {
            actor: endorser,
            action: QueuedAction::Endorse { subject, in_slot: (n < ENDORSEMENT_SLOT_LIMIT) },
        }),
        0 <= n < ENDORSEMENT_SLOT_LIMIT ==> endorse_decision(endorser, subject, true, facts) == (
        TrustDecision::Enqueue { actor: endorser, action: QueuedAction::Endorse { subject, in_slot: true } }),
{
}

/// What a queued revocation is: it is queued for the endorser, names the
/// subject, and is only queued for another account within the quota; with
/// those facts it always is.
pub proof fn lemma_revocation_queue(endorser: u128, subject: u128, facts: TrustFacts)
    ensures
        revoke_decision(endorser, subject, facts) is Enqueue <==> endorser != subject && within_quota(facts),
        revoke_decision(endorser, subject, facts) is Enqueue ==> revoke_decision(endorser, subject, facts)
            == (TrustDecision::Enqueue { actor: endorser, action: QueuedAction::Revoke { subject } }),
{
}

/// What a queued denouncement is: it is queued for the accuser and names the
/// target, exactly when the target is another account, the reason is valid,
/// the target is not already denounced, the quota allows it and fewer than
/// the limit of denouncements were filed.
pub proof fn lemma_denouncement_queue(accuser: u128, target: u128, reason: Seq<char>, facts: TrustFacts)
    ensures
        denounce_decision(accuser, target, reason, facts) is Enqueue <==> {
            &&& accuser != target
            &&& valid_reason(reason)
            &&& facts.denounced == Some(false)
            &&& within_quota(facts)
            &&& (facts.total_denouncements matches Some(t) && t < DENOUNCEMENT_SLOT_LIMIT)
        },
        denounce_decision(accuser, target, reason, facts) is Enqueue ==> denounce_decision(
            accuser,
            target,
            reason,
            facts,
        ) == (TrustDecision::Enqueue { actor: accuser, action: QueuedAction::Denounce { target } }),
{
}

} // verus!
