//! The kinds of error replies that handlers send, independent of the HTTP
//! framework that renders them.
use vstd::prelude::*;

verus! {

/// An error reply: its kind decides the status code, and it carries the
/// message shown to the client (an internal error shows a generic one).
#[derive(Debug)]
pub enum Reply {
    BadRequest(String),
    Forbidden(String),
    NotFound(String),
    Conflict(String),
    TooManyRequests(String),
    Internal,
}

/// The kind and message of a reply, for contracts.
pub open spec fn reply_parts(r: Reply) -> (int, Seq<char>) {
    match r {
        Reply::BadRequest(m) => (400, m@),
        Reply::Forbidden(m) => (403, m@),
        Reply::NotFound(m) => (404, m@),
        Reply::Conflict(m) => (409, m@),
        Reply::TooManyRequests(m) => (429, m@),
        Reply::Internal => (500, Seq::empty()),
    }
}

} // verus!
