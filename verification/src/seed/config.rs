//! Configuration for the demo seed worker.
use vstd::prelude::*;

use crate::text::string_of;

verus! {

/// Seed worker configuration (loaded from `SEED_*` environment variables).
pub struct SeedConfig {
    /// `OpenRouter` API key
    pub openrouter_api_key: String,
    /// `OpenRouter` model identifier (a `provider/model` slug)
    pub openrouter_model: String,
    /// Target number of open rooms with active polls
    pub target_rooms: usize,
    /// Number of synthetic votes to cast per poll
    pub votes_per_poll: usize,
    /// System prompt for LLM topic generation
    pub system_prompt: String,
    /// Number of synthetic voter accounts to create
    pub voter_count: usize,
}

/// System prompt used when none is configured.
pub open spec fn spec_default_system_prompt() -> Seq<char> {
    "You are a civic engagement topic generator. Generate realistic local governance topics \
     suitable for community polling. Topics should be specific, actionable, and relevant to \
     a small city or town. Examples: zoning changes, park improvements, transit priorities, \
     budget allocation, public safety initiatives."@
}

/// Rooms kept open when no target is configured.
pub fn default_target_rooms() -> (r: usize)
    ensures
        r == 5,
{
    5
}

/// Votes cast per poll when none is configured.
pub fn default_votes_per_poll() -> (r: usize)
    ensures
        r == 15,
{
    15
}

/// System prompt used when none is configured.
pub fn default_system_prompt() -> (r: String)
    ensures
        r@ == spec_default_system_prompt(),
{
    string_of("You are a civic engagement topic generator. Generate realistic local governance topics \
     suitable for community polling. Topics should be specific, actionable, and relevant to \
     a small city or town. Examples: zoning changes, park improvements, transit priorities, \
     budget allocation, public safety initiatives.")
}

/// Synthetic voters created when no count is configured.
pub fn default_voter_count() -> (r: usize)
    ensures
        r == 20,
{
    20
}

} // verus!
