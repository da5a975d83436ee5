//! Problem details (RFC 7807) error bodies of the REST API.
use vstd::prelude::*;

use crate::text::string_of;

verus! {

/// Extended error information mapping to GraphQL error codes.
pub struct ProblemExtensions {
    /// Error code matching GraphQL error codes.
    pub code: String,
    /// Field that caused the error (for validation errors).
    pub field: Option<String>,
}

/// RFC 7807 Problem Details error response.
pub struct ProblemDetails {
    /// URI reference identifying the problem type.
    pub problem_type: String,
    /// Short human-readable summary.
    pub title: String,
    /// HTTP status code.
    pub status: u16,
    /// Human-readable explanation specific to this occurrence.
    pub detail: String,
    /// URI reference identifying the specific occurrence.
    pub instance: Option<String>,
    /// Additional error details.
    pub extensions: Option<ProblemExtensions>,
}

impl ProblemDetails {
    /// An internal server error with the given detail.
    pub fn internal_error(detail: &str) -> (p: Self)
        ensures
            p.problem_type@ == "https://tinycongress.com/errors/internal"@,
            p.title@ == "Internal Server Error"@,
            p.status == 500,
            p.detail@ == detail@,
            p.instance is None,
            p.extensions matches Some(x) && x.code@ == "INTERNAL_ERROR"@ && x.field is None,
    {
        ProblemDetails {
            problem_type: string_of("https://tinycongress.com/errors/internal"),
            title: string_of("Internal Server Error"),
            status: 500,
            detail: string_of(detail),
            instance: None,
            extensions: Some(ProblemExtensions { code: string_of("INTERNAL_ERROR"), field: None }),
        }
    }
}

/// `OpenAPI` documentation for the REST API (the document itself is
/// generated by the application).
pub struct ApiDoc;

} // verus!
