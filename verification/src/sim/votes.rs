//! Vote simulation rules: which accounts still vote on a poll, and how a
//! refused vote is treated. Vote values are drawn by the application.
use vstd::prelude::*;

use crate::text::{contains_text, str_contains};

verus! {

/// Seed of the generator that draws simulated vote values, so that runs
/// are reproducible.
pub const VOTE_SEED: u64 = 20_260_303;

/// The accounts (by position) that still vote on a poll already holding
/// `existing` voters, when `votes_per_poll` voters are wanted and
/// `n_accounts` accounts exist: from the first account that has not voted
/// up to the wanted count (no more than the accounts available); `None`
/// when the poll has enough voters.
pub fn voters_to_add(votes_per_poll: usize, n_accounts: usize, existing: i64) -> (r: Option<(usize, usize)>)
    ensures
        ({
            let wanted = if votes_per_poll < n_accounts { votes_per_poll as int } else { n_accounts as int };
            let start = if existing < 0 { 0 } else { existing as int };
            &&& start >= wanted <==> r is None
            &&& r matches Some(p) ==> p.0 == start && p.1 == wanted
        }),
{
    let wanted = if votes_per_poll < n_accounts { votes_per_poll } else { n_accounts };
    if existing >= 0 && existing as u64 >= wanted as u64 {
        return None;
    }
    let start: usize = if existing < 0 { 0 } else { existing as usize };
    if start >= wanted {
        return None;
    }
    Some((start, wanted))
}

/// What becomes of one simulated vote.
#[derive(Debug, Clone, PartialEq, Eq)]
pub enum VoteCast {
    /// The vote was cast.
    Counted,
    /// The account may not vote (the API answered 403); it is skipped.
    Skipped,
    /// Any other failure stops the simulation with this error.
    Failed(String),
}

/// Classify the result of casting one vote: a failure whose text mentions
/// `403` means the account is not eligible and is skipped.
pub fn vote_cast_outcome(result: Result<(), String>) -> (r: VoteCast)
    ensures
        match result {
            Ok(_) => r == VoteCast::Counted,
            Err(e) => if contains_text(e@, "403"@) {
                r == VoteCast::Skipped
            } else {
                r == VoteCast::Failed(e)
            },
        },
{
    match result {
        Ok(_) => VoteCast::Counted,
        Err(e) => {
            if str_contains(e.as_str(), "403") {
                VoteCast::Skipped
            } else {
                VoteCast::Failed(e)
            }
        },
    }
}

} // verus!
