//! Configuration for the simulation worker.
use vstd::prelude::*;

use crate::text::string_of;

verus! {

/// Sim worker configuration (loaded from `SIM_*` environment variables).
pub struct SimConfig {
    /// Base URL of the `TinyCongress` API (e.g., `http://localhost:4000`)
    pub api_url: String,
    /// `OpenRouter` API key (not required when `mock_llm` is true)
    pub openrouter_api_key: String,
    /// Use deterministic mock content instead of calling `OpenRouter`
    pub mock_llm: bool,
    /// `OpenRouter` model identifier
    pub openrouter_model: String,
    /// Target number of open rooms with active polls
    pub target_rooms: usize,
    /// Number of synthetic votes to cast per poll
    pub votes_per_poll: usize,
    /// System prompt for LLM topic generation
    pub system_prompt: String,
    /// Number of synthetic voter accounts to create
    pub voter_count: usize,
    /// Log level filter (e.g., "info", "debug", "warn")
    pub log_level: String,
    /// Duration (in seconds) for polls created in sim rooms
    pub poll_duration_secs: i32,
    /// Room topic mode (e.g., "civic" or "brand_ethics")
    pub room_topic: String,
    /// Number of companies to curate from the S&P 500 (used in `brand_ethics` mode)
    pub company_count: usize,
    /// Exa API key for evidence search (required for `brand_ethics` mode unless `mock_llm`)
    pub exa_api_key: String,
    /// Model for evidence synthesis step
    pub evidence_model: String,
    /// Dry run: only run LLM generation and write output to a JSON file, skip API calls
    pub dry_run: bool,
    /// Battery test: path to a JSON file with model+search pairs to compare
    pub battery_config: Option<String>,
    /// Company name for battery test
    pub battery_company: Option<String>,
    /// Ticker for battery test
    pub battery_ticker: Option<String>,
}

/// Evidence model used when none is configured.
pub fn default_evidence_model() -> (r: String)
    ensures
        r@ == "deepseek/deepseek-v3.2"@,
{
    string_of("deepseek/deepseek-v3.2")
}

/// Rooms kept open when no target is configured.
pub fn default_target_rooms() -> (r: usize)
    ensures
        r == 5,
{
    5
}

/// Votes cast per poll when none is configured.
pub fn default_votes_per_poll() -> (r: usize)
    ensures
        r == 15,
{
    15
}

/// System prompt used when none is configured.
pub fn default_system_prompt() -> (r: String)
    ensures
        r@ == "You are a civic engagement topic generator. Generate realistic local governance topics \
     suitable for community polling. Topics should be specific, actionable, and relevant to \
     a small city or town. Examples: zoning changes, park improvements, transit priorities, \
     budget allocation, public safety initiatives."@,
{
    string_of("You are a civic engagement topic generator. Generate realistic local governance topics \
     suitable for community polling. Topics should be specific, actionable, and relevant to \
     a small city or town. Examples: zoning changes, park improvements, transit priorities, \
     budget allocation, public safety initiatives.")
}

/// Synthetic voters created when no count is configured.
pub fn default_voter_count() -> (r: usize)
    ensures
        r == 20,
{
    20
}

/// Log level used when none is configured.
pub fn default_log_level() -> (r: String)
    ensures
        r@ == "info"@,
{
    string_of("info")
}

/// Poll duration used when none is configured: 24 hours.
pub fn default_poll_duration_secs() -> (r: i32)
    ensures
        r == 86400,
{
    86400
}

/// Room topic used when none is configured.
pub fn default_room_topic() -> (r: String)
    ensures
        r@ == "civic"@,
{
    string_of("civic")
}

/// Companies curated when no count is configured.
pub fn default_company_count() -> (r: usize)
    ensures
        r == 25,
{
    25
}

} // verus!
