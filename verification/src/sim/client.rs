//! Request bodies that the simulation client sends.
use vstd::prelude::*;

verus! {

/// Evidence item for the POST evidence endpoint.
pub struct EvidenceBody {
    pub stance: String,
    pub claim: String,
    pub source: Option<String>,
}

} // verus!
