//! Poll request/response shapes, histogram labels, and poll/vote error replies.
use vstd::prelude::*;

use crate::reply::Reply;
use crate::rooms::repo::BucketCount;
use crate::text::{decimal, string_of, usize_to_decimal};
use vstd::string::StringExecFns;

verus! {

/// An evidence card as returned to clients.
pub struct EvidenceResponse {
    pub id: String,
    pub stance: String,
    pub claim: String,
    pub source: Option<String>,
}

/// One labelled bucket of a vote histogram.
pub struct BucketResponse {
    pub label: String,
    pub count: i64,
}

/// Body of a poll creation request.
pub struct CreatePollRequest {
    pub question: String,
    pub description: Option<String>,
}

/// Status a poll may be moved to.
#[derive(Debug, Clone, Copy, PartialEq, Eq, Structural)]
pub enum PollStatusTransition {
    Active,
    Closed,
}

/// Body of a poll status change request.
pub struct PollStatusRequest {
    pub status: PollStatusTransition,
}

/// Body of an evidence creation request.
pub struct CreateEvidenceBody {
    pub evidence: Vec<EvidenceItem>,
}

/// One evidence card to create.
pub struct EvidenceItem {
    pub stance: String,
    pub claim: String,
    pub source: Option<String>,
}

/// Label of the `i`-th of ten histogram buckets: its percentage range, as in
/// `"10–20%"` (with an en dash).
pub open spec fn bucket_label(i: nat) -> Seq<char> {
    decimal((i * 100) / 10) + seq!['\u{2013}'] + decimal(((i + 1) * 100) / 10) + seq!['%']
}

/// The buckets of a histogram with their percentage labels, in order.
pub fn bucket_responses(buckets: Vec<BucketCount>) -> (r: Vec<BucketResponse>)
    requires
        buckets@.len() < usize::MAX / 100,
    ensures
        r@.len() == buckets@.len(),
        forall|i: int|
            0 <= i < buckets@.len() ==> (#[trigger] r@[i]).label@ == bucket_label(i as nat)
                && r@[i].count == buckets@[i].count,
{
    let mut r: Vec<BucketResponse> = Vec::new();
    let mut i: usize = 0;
    proof {
        reveal_strlit("\u{2013}");
        reveal_strlit("%");
    }
    while i < buckets.len()
        invariant
            i <= buckets@.len() < usize::MAX / 100,
            r@.len() == i,
            forall|j: int|
                0 <= j < i ==> (#[trigger] r@[j]).label@ == bucket_label(j as nat) && r@[j].count
                    == buckets@[j].count,
        decreases buckets@.len() - i,
    {
        proof {
            reveal_strlit("\u{2013}");
            reveal_strlit("%");
        }
        proof {
            assert((i + 1) * 100 <= usize::MAX) by (nonlinear_arith)
                requires
                    i < usize::MAX / 100,
            ;
        }
        let start = (i * 100) / 10;
        let end = ((i + 1) * 100) / 10;
        let mut label = usize_to_decimal(start);
        label.append("\u{2013}");
        let e = usize_to_decimal(end);
        label.append(e.as_str());
        label.append("%");
        r.push(BucketResponse { label, count: buckets[i].count });
        i += 1;
    }
    r
}

/// Failures of poll operations.
#[derive(Debug)]
pub enum PollError {
    Validation(String),
    PollNotFound,
    Internal(String),
}

/// Failures of vote operations.
#[derive(Debug)]
pub enum VoteError {
    Validation(String),
    NotEligible(String),
    PollNotFound,
    PollNotActive,
    Internal(String),
}

/// The reply for a failed poll operation.
pub fn poll_error_reply(e: PollError) -> (r: Reply)
    ensures
        e matches PollError::Validation(m) ==> r == Reply::BadRequest(m),
        e is PollNotFound ==> (r matches Reply::NotFound(m) && m@ == "Poll not found"@),
        e is Internal ==> r is Internal,
{
    match e {
        PollError::Validation(msg) => Reply::BadRequest(msg),
        PollError::PollNotFound => Reply::NotFound(string_of("Poll not found")),
        PollError::Internal(_) => Reply::Internal,
    }
}

/// The reply for a failed vote.
pub fn vote_error_reply(e: VoteError) -> (r: Reply)
    ensures
        e matches VoteError::Validation(m) ==> r == Reply::BadRequest(m),
        e matches VoteError::NotEligible(m) ==> r == Reply::Forbidden(m),
        e is PollNotFound ==> (r matches Reply::NotFound(m) && m@ == "Poll not found"@),
        e is PollNotActive ==> (r matches Reply::Conflict(m) && m@
            == "Poll is not currently active"@),
        e is Internal ==> r is Internal,
{
    match e {
        VoteError::Validation(msg) => Reply::BadRequest(msg),
        VoteError::NotEligible(msg) => Reply::Forbidden(msg),
        VoteError::PollNotFound => Reply::NotFound(string_of("Poll not found")),
        VoteError::PollNotActive => Reply::Conflict(string_of("Poll is not currently active")),
        VoteError::Internal(_) => Reply::Internal,
    }
}

} // verus!
