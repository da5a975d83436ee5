//! Endorsement handler shapes and rules.
use vstd::prelude::*;

use crate::reply::Reply;
use crate::reputation::service::EndorsementError;
use crate::text::string_of;

verus! {

/// Whether a subject holds an endorsement on a topic.
pub struct HasEndorsementResponse {
    pub has_endorsement: bool,
}

/// Query of the public endorsement check.
pub struct EndorsementQuery {
    pub subject_id: Option<u128>,
    pub topic: Option<String>,
}

/// The subject and topic to look up, or the reply refusing a query that
/// lacks either (the subject is checked first).
pub fn endorsement_query_inputs(query: EndorsementQuery) -> (r: Result<(u128, String), Reply>)
    ensures
        query.subject_id is None ==> (r matches Err(Reply::BadRequest(m)) && m@
            == "subject_id query parameter is required"@),
        query.subject_id is Some && query.topic is None ==> (r matches Err(Reply::BadRequest(m))
            && m@ == "topic query parameter is required"@),
        query.subject_id is Some && query.topic is Some ==> r == Ok::<(u128, String), Reply>(
            (query.subject_id->0, query.topic->0),
        ),
{
    let subject_id = match query.subject_id {
        Some(s) => s,
        None => return Err(Reply::BadRequest(string_of("subject_id query parameter is required"))),
    };
    match query.topic {
        Some(t) => Ok((subject_id, t)),
        None => Err(Reply::BadRequest(string_of("topic query parameter is required"))),
    }
}

/// The reply refusing a verifier request from an account that lacks the
/// `authorized_verifier` endorsement, or `None` when the account has it.
pub fn verifier_gate(is_verifier: bool) -> (r: Option<Reply>)
    ensures
        is_verifier <==> r is None,
        r matches Some(e) ==> (e matches Reply::Forbidden(m) && m@
            == "Account is not an authorized verifier"@),
{
    if is_verifier {
        None
    } else {
        Some(Reply::Forbidden(string_of("Account is not an authorized verifier")))
    }
}

/// The reply for a failed endorsement operation: validation failures are
/// the caller's fault, every other failure is internal.
pub fn endorsement_error_reply(e: EndorsementError) -> (r: Reply)
    ensures
        e matches EndorsementError::Validation(m) ==> r == Reply::BadRequest(m),
        !(e is Validation) ==> r is Internal,
{
    match e {
        EndorsementError::Validation(msg) => Reply::BadRequest(msg),
        _ => Reply::Internal,
    }
}

} // verus!
