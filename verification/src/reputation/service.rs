//! Errors of endorsement operations.
use vstd::prelude::*;

use crate::text::string_of;
use vstd::string::StringExecFns;

verus! {

/// Errors of endorsement operations.
#[derive(Debug)]
pub enum EndorsementError {
    Validation(String),
    Duplicate,
    VerifierNotFound(String),
    Internal(String),
}

/// The message describing an endorsement error.
pub open spec fn endorsement_error_text(e: EndorsementError) -> Seq<char> {
    match e {
        EndorsementError::Validation(m) => m@,
        EndorsementError::Duplicate => "endorsement already exists for this subject and topic"@,
        EndorsementError::VerifierNotFound(m) => "verifier not found: "@ + m@,
        EndorsementError::Internal(m) => "internal error: "@ + m@,
    }
}

impl EndorsementError {
    /// The message describing this error.
    pub fn message(&self) -> (r: String)
        ensures
            r@ == endorsement_error_text(*self),
    {
        match self {
            EndorsementError::Validation(m) => m.clone(),
            EndorsementError::Duplicate => string_of(
                "endorsement already exists for this subject and topic",
            ),
            EndorsementError::VerifierNotFound(m) => {
                let mut r = string_of("verifier not found: ");
                r.append(m.as_str());
                r
            },
            EndorsementError::Internal(m) => {
                let mut r = string_of("internal error: ");
                r.append(m.as_str());
                r
            },
        }
    }
}


/// Errors of the verifier account store.
#[derive(Debug, Clone, PartialEq, Eq)]
pub enum VerifierAccountRepoError {
    NotFound,
    DuplicateName,
    /// The database failed (its rendered error).
    Database(String),
}

/// Errors of the endorsement store.
#[derive(Debug, Clone, PartialEq, Eq)]
pub enum EndorsementRepoError {
    Duplicate,
    NotFound,
    /// The database failed (its rendered error).
    Database(String),
}

/// Refuse an endorsement on an empty topic.
pub fn check_topic(topic: &str) -> (r: Result<(), EndorsementError>)
    ensures
        topic@.len() == 0 ==> (r matches Err(EndorsementError::Validation(m)) && m@
            == "Topic cannot be empty"@),
        topic@.len() != 0 ==> r is Ok,
{
    if topic.is_empty() {
        Err(EndorsementError::Validation(string_of("Topic cannot be empty")))
    } else {
        Ok(())
    }
}

/// The endorsement error a failed lookup of the verifier `verifier_name`
/// becomes: an unknown verifier is reported by name; anything else is an
/// internal error.
pub fn verifier_lookup_error(e: VerifierAccountRepoError, verifier_name: &str) -> (r: EndorsementError)
    ensures
        e is NotFound ==> (r matches EndorsementError::VerifierNotFound(m) && m@ == verifier_name@),
        !(e is NotFound) ==> (r matches EndorsementError::Internal(m) && m@ == "Internal server error"@),
{
    match e {
        VerifierAccountRepoError::NotFound => EndorsementError::VerifierNotFound(string_of(verifier_name)),
        _ => EndorsementError::Internal(string_of("Internal server error")),
    }
}

/// The endorsement error a failed store of an endorsement becomes: a
/// duplicate stays a duplicate; anything else is an internal error.
pub fn endorsement_store_error(e: EndorsementRepoError) -> (r: EndorsementError)
    ensures
        e is Duplicate ==> r is Duplicate,
        !(e is Duplicate) ==> (r matches EndorsementError::Internal(m) && m@ == "Internal server error"@),
{
    match e {
        EndorsementRepoError::Duplicate => EndorsementError::Duplicate,
        _ => EndorsementError::Internal(string_of("Internal server error")),
    }
}

} // verus!
