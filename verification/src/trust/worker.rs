//! Decisions of the trust action worker: what becomes of a queue message, how
//! an action's payload is read, and when the loop backs off.
//!
//! The worker itself (queue reads, repository calls, sleeping) runs outside
//! the library and hands each observation to these functions.
use vstd::prelude::*;

use crate::ids::{parse_uuid, uuid_error_text, uuid_parse};
use crate::text::{decimal, string_of, usize_to_decimal};
use crate::trust::service::{valid_reason, is_valid_reason, ActionType, parse_action_type, DENOUNCEMENT_REASON_MAX_LEN};
use vstd::string::StrSliceExecFns;

verus! {

/// A message read more often than this is treated as poison.
pub const MAX_RETRIES: i32 = 3;

/// Seconds a read message stays hidden from other readers.
pub const VISIBILITY_TIMEOUT_SECS: i32 = 120;

/// Seconds the worker waits before polling an empty queue again.
pub const POLL_INTERVAL_SECS: u64 = 5;

/// Errors that can occur while processing a single trust action.
#[derive(Debug, Clone, PartialEq, Eq)]
pub enum TrustActionError {
    /// The action payload is missing a required field or contains an invalid value.
    InvalidPayload(String),
    /// A reputation repository operation failed (its rendered error).
    ReputationRepo(String),
    /// A trust repository operation failed (its rendered error).
    TrustRepo(String),
    /// Trust score recomputation failed (its rendered error).
    Engine(String),
    /// The action type is not recognised.
    UnknownActionType(String),
    /// The queue read failed (its rendered error).
    Queue(String),
}

/// The text an error is shown with.
pub open spec fn action_error_text(e: TrustActionError) -> Seq<char> {
    match e {
        TrustActionError::InvalidPayload(m) => "invalid payload: "@ + m@,
        TrustActionError::ReputationRepo(m) => "reputation repo error: "@ + m@,
        TrustActionError::TrustRepo(m) => "trust repo error: "@ + m@,
        TrustActionError::Engine(m) => "engine error: "@ + m@,
        TrustActionError::UnknownActionType(m) => "unknown action type: "@ + m@,
        TrustActionError::Queue(m) => "queue read failed: "@ + m@,
    }
}

impl TrustActionError {
    /// The text this error is shown with.
    pub fn message(&self) -> (r: String)
        ensures
            r@ == action_error_text(*self),
    {
        let (prefix, detail) = match self {
            TrustActionError::InvalidPayload(m) => ("invalid payload: ", m),
            TrustActionError::ReputationRepo(m) => ("reputation repo error: ", m),
            TrustActionError::TrustRepo(m) => ("trust repo error: ", m),
            TrustActionError::Engine(m) => ("engine error: ", m),
            TrustActionError::UnknownActionType(m) => ("unknown action type: ", m),
            TrustActionError::Queue(m) => ("queue read failed: ", m),
        };
        let mut r = string_of(prefix);
        r.append(detail.as_str());
        r
    }
}

/// What the worker does with a message it has read.
#[derive(Debug, Clone, Copy, PartialEq, Eq, Structural)]
pub enum MessageStep {
    /// Read too often: mark the action failed (when its id is known) and archive.
    Poison { poisoned: Option<u128> },
    /// No usable action id: archive the message.
    BadPayload,
    /// Load and process the action with this id.
    Process { log_id: u128 },
}

/// The action id a message names: its `log_id` text parsed as a UUID.
pub open spec fn log_id_of(raw: Option<&str>) -> Option<u128> {
    match raw {
        Some(s) => uuid_parse(s@),
        None => None,
    }
}

/// Read the action id from a message's `log_id` field (`None` when the field
/// is absent or not a string).
pub fn extract_log_id(raw: Option<&str>) -> (r: Option<u128>)
    ensures
        r == log_id_of(raw),
{
    match raw {
        Some(s) => match parse_uuid(s) {
            Ok(id) => Some(id),
            Err(_) => None,
        },
        None => None,
    }
}

/// Decide what becomes of a message read `read_ct` times whose `log_id`
/// field holds `raw_log_id`: poison past [`MAX_RETRIES`] reads, else
/// processed when it names an action, else archived as a bad payload.
pub fn classify_message(read_ct: i32, raw_log_id: Option<&str>) -> (step: MessageStep)
    ensures
        read_ct > MAX_RETRIES ==> step == (MessageStep::Poison { poisoned: log_id_of(raw_log_id) }),
        read_ct <= MAX_RETRIES ==> step == (match log_id_of(raw_log_id) {
            Some(id) => (MessageStep::Process { log_id: id }),
            None => MessageStep::BadPayload,
        }),
{
    let log_id = extract_log_id(raw_log_id);
    if read_ct > MAX_RETRIES {
        return MessageStep::Poison { poisoned: log_id };
    }
    match log_id {
        Some(id) => MessageStep::Process { log_id: id },
        None => MessageStep::BadPayload,
    }
}

/// Whether the run loop sleeps before its next poll: after an empty queue
/// (`Ok(false)`) or a failed read, but not after a processed message.
pub fn should_back_off(processed: Result<bool, TrustActionError>) -> (r: bool)
    ensures
        r == !(processed == Ok::<bool, TrustActionError>(true)),
{
    match processed {
        Ok(true) => false,
        _ => true,
    }
}

/// The message a payload field is refused with, or the id it names.
pub open spec fn uuid_field(key: Seq<char>, raw: Option<&str>) -> Result<u128, Seq<char>> {
    match raw {
        None => Err("payload missing '"@ + key + "'"@),
        Some(s) => match uuid_parse(s@) {
            Some(id) => Ok(id),
            None => Err("payload '"@ + key + "' is not a valid UUID: "@ + uuid_error_text(s@)),
        },
    }
}

/// Read the UUID in payload field `key`, whose string value is `raw`
/// (`None` when the field is absent or not a string).
pub fn parse_uuid_field(key: &str, raw: Option<&str>) -> (r: Result<u128, TrustActionError>)
    ensures
        match uuid_field(key@, raw) {
            Ok(id) => r == Ok::<u128, TrustActionError>(id),
            Err(m) => r matches Err(TrustActionError::InvalidPayload(x)) && x@ == m,
        },
{
    match raw {
        None => {
            let mut m = string_of("payload missing '");
            m.append(key);
            m.append("'");
            Err(TrustActionError::InvalidPayload(m))
        },
        Some(s) => match parse_uuid(s) {
            Ok(id) => Ok(id),
            Err(detail) => {
                let mut m = string_of("payload '");
                m.append(key);
                m.append("' is not a valid UUID: ");
                m.append(detail.as_str());
                Err(TrustActionError::InvalidPayload(m))
            },
        },
    }
}

/// Read the subject of a `revoke` action from its `subject_id` field.
pub fn parse_revoke_payload(subject_id: Option<&str>) -> (r: Result<u128, TrustActionError>)
    ensures
        match uuid_field("subject_id"@, subject_id) {
            Ok(id) => r == Ok::<u128, TrustActionError>(id),
            Err(m) => r matches Err(TrustActionError::InvalidPayload(x)) && x@ == m,
        },
{
    parse_uuid_field("subject_id", subject_id)
}

/// Read a `denounce` action's target and reason from its `target_id` and
/// `reason` fields (each `None` when absent or not a string). The target is
/// checked first; a reason must be present and valid.
pub fn parse_denounce_payload(target_id: Option<&str>, reason: Option<&str>) -> (r: Result<
    (u128, String),
    TrustActionError,
>)
    ensures
        match uuid_field("target_id"@, target_id) {
            Err(m) => r matches Err(TrustActionError::InvalidPayload(x)) && x@ == m,
            Ok(id) => match reason {
                None => r matches Err(TrustActionError::InvalidPayload(x)) && x@
                    == "denounce payload missing 'reason'"@,
                Some(text) => if valid_reason(text@) {
                    r matches Ok((t, k)) && t == id && k@ == text@
                } else {
                    r matches Err(TrustActionError::InvalidPayload(x)) && x@
                        == "denounce payload 'reason' length out of range [1, "@ + decimal(
                        DENOUNCEMENT_REASON_MAX_LEN as nat,
                    ) + "]: "@ + decimal(text@.len())
                },
            },
        },
{
    let target = match parse_uuid_field("target_id", target_id) {
        Ok(id) => id,
        Err(e) => return Err(e),
    };
    let text = match reason {
        Some(t) => t,
        None => {
            return Err(
                TrustActionError::InvalidPayload(string_of("denounce payload missing 'reason'")),
            )
        },
    };
    if !is_valid_reason(text) {
        let mut m = string_of("denounce payload 'reason' length out of range [1, ");
        let limit = usize_to_decimal(DENOUNCEMENT_REASON_MAX_LEN);
        m.append(limit.as_str());
        m.append("]: ");
        let count = usize_to_decimal(text.unicode_len());
        m.append(count.as_str());
        return Err(TrustActionError::InvalidPayload(m));
    }
    Ok((target, string_of(text)))
}

/// The action type an action names, or the error refusing an unknown name.
pub fn action_type_of(name: &str) -> (r: Result<ActionType, TrustActionError>)
    ensures
        match parse_action_type(name@) {
            Some(a) => r == Ok::<ActionType, TrustActionError>(a),
            None => r matches Err(TrustActionError::UnknownActionType(x)) && x@ == name@,
        },
{
    match ActionType::from_str_opt(name) {
        Some(a) => Ok(a),
        None => Err(TrustActionError::UnknownActionType(string_of(name))),
    }
}


/// The error an action is failed with once its message turned out to be poison.
pub const POISON_ERROR: &'static str = "poison message: exceeded max retries";

/// How loading and processing the action a message names went.
#[derive(Debug, PartialEq, Eq)]
pub enum ActionOutcome {
    /// The action record could not be loaded.
    NotLoaded,
    /// The action with id `action_id` was loaded and processed, with `result`.
    Processed { action_id: u128, result: Result<(), TrustActionError> },
}

/// A store call the worker makes after handling a message.
#[derive(Debug, Clone, PartialEq, Eq)]
pub enum WorkerEffect {
    /// Mark the action failed with `error` (the store keeps a truncated copy).
    FailAction { action_id: u128, error: String },
    /// Mark the action completed.
    CompleteAction { action_id: u128 },
    /// Archive the queue message, so that it is not read again.
    Archive { msg_id: i64 },
}

/// The store calls, in order, after message `msg_id` took `step`; `outcome`
/// tells how its action went and is read only when the step processes one.
///
/// A poison message fails its action (when it names one) and is archived; a
/// bad payload is archived; a processed action is completed or failed with
/// its error's text, then its message archived; a message whose action could
/// not be loaded is left in the queue for a later read.
pub fn message_effects(msg_id: i64, step: MessageStep, outcome: ActionOutcome) -> (r: Vec<WorkerEffect>)
    ensures
        match step {
            MessageStep::Poison { poisoned: Some(id) } => {
                &&& r@.len() == 2
                &&& r@[0] matches WorkerEffect::FailAction { action_id, error } && action_id == id
                    && error@ == POISON_ERROR@
                &&& r@[1] == (WorkerEffect::Archive { msg_id })
            },
            MessageStep::Poison { poisoned: None } => r@ == seq![WorkerEffect::Archive { msg_id }],
            MessageStep::BadPayload => r@ == seq![WorkerEffect::Archive { msg_id }],
            MessageStep::Process { .. } => match outcome {
                ActionOutcome::NotLoaded => r@.len() == 0,
                ActionOutcome::Processed { action_id, result: Ok(()) } => r@ == seq![
                    WorkerEffect::CompleteAction { action_id },
                    WorkerEffect::Archive { msg_id },
                ],
                ActionOutcome::Processed { action_id, result: Err(e) } => {
                    &&& r@.len() == 2
                    &&& r@[0] matches WorkerEffect::FailAction { action_id: a, error } && a
                        == action_id && error@ == action_error_text(e)
                    &&& r@[1] == (WorkerEffect::Archive { msg_id })
                },
            },
        },
{
    let mut r: Vec<WorkerEffect> = Vec::new();
    match step {
        MessageStep::Poison { poisoned } => {
            match poisoned {
                Some(id) => r.push(WorkerEffect::FailAction { action_id: id, error: string_of(POISON_ERROR) }),
                None => {},
            }
            r.push(WorkerEffect::Archive { msg_id });
        },
        MessageStep::BadPayload => {
            r.push(WorkerEffect::Archive { msg_id });
        },
        MessageStep::Process { .. } => match outcome {
            ActionOutcome::NotLoaded => {},
            ActionOutcome::Processed { action_id, result } => {
                match result {
                    Ok(()) => r.push(WorkerEffect::CompleteAction { action_id }),
                    Err(e) => r.push(WorkerEffect::FailAction { action_id, error: e.message() }),
                }
                r.push(WorkerEffect::Archive { msg_id });
            },
        },
    }
    r
}

} // verus!
