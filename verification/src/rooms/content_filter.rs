//! Content filter for research suggestions.
//!
//! Trait-based so implementations can be swapped:
//! - `NoopFilter`: always accepts (demo)
use vstd::prelude::*;

verus! {

/// Verdict of a content filter.
#[derive(Debug, Clone)]
pub enum FilterResult {
    Accept,
    Reject { reason: String },
}

/// A filter that accepts or rejects suggestion text.
pub trait ContentFilter {
    fn check(&self, text: &str) -> FilterResult;
}

/// Demo filter: accepts everything.
pub struct NoopFilter;

impl ContentFilter for NoopFilter {
    fn check(&self, text: &str) -> (r: FilterResult)
        ensures
            r is Accept,
    {
        FilterResult::Accept
    }
}

} // verus!
