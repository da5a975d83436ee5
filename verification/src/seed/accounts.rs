//! Synthetic demo accounts: their names, key material, and what to do at
//! each step of making sure they exist.
use vstd::prelude::*;

use crate::codec::{base64url_encoded, encode_base64url};
use crate::text::{decimal_two_digits, string_of, usize_to_two_digits};
use vstd::string::StringExecFns;

verus! {

/// Username of demo account `i` (counted from 0): `demo_voter_` and `i + 1`
/// with at least two digits.
pub fn demo_username(i: usize) -> (r: String)
    requires
        i < usize::MAX,
    ensures
        r@ == "demo_voter_"@ + decimal_two_digits((i + 1) as nat),
{
    let mut r = string_of("demo_voter_");
    let n = usize_to_two_digits(i + 1);
    r.append(n.as_str());
    r
}

/// Byte whose 32 copies form the public key of demo account `i`.
pub fn demo_key_seed(i: usize) -> (r: u8)
    ensures
        r == (i + 100) % 256,
{
    ((i % 256 + 100) % 256) as u8
}

/// The public key made of 32 copies of `seed`, base64url-encoded.
pub fn deterministic_pubkey(seed: u8) -> (r: String)
    ensures
        r@ == base64url_encoded(Seq::new(32, |k: int| seed)),
{
    let mut bytes: Vec<u8> = Vec::new();
    let mut k: usize = 0;
    while k < 32
        invariant
            k <= 32,
            bytes@ =~= Seq::new(k as nat, |j: int| seed),
        decreases 32 - k,
    {
        bytes.push(seed);
        k = k + 1;
    }
    encode_base64url(bytes.as_slice())
}

/// What looking up a demo account by username found.
#[derive(Debug, Clone, Copy, PartialEq, Eq, Structural)]
pub enum AccountLookup {
    /// The account exists, with this id.
    Found(u128),
    NotFound,
    Failed,
}

/// What creating a demo account gave.
#[derive(Debug, Clone, Copy, PartialEq, Eq, Structural)]
pub enum AccountCreation {
    /// Created, with this id.
    Created(u128),
    /// Another worker created it first.
    DuplicateUsername,
    Failed,
}

/// The next step for one demo account.
#[derive(Debug, Clone, Copy, PartialEq, Eq, Structural)]
pub enum AccountStep {
    /// Use the account with this id.
    Use(u128),
    /// Create the account.
    Create,
    /// Look the account up again (it was created meanwhile).
    LookUpAgain,
    /// Stop with the store's error.
    Fail,
}

/// After the first lookup: use an existing account, create a missing one.
pub fn after_lookup(found: AccountLookup) -> (r: AccountStep)
    ensures
        r == match found {
            AccountLookup::Found(id) => AccountStep::Use(id),
            AccountLookup::NotFound => AccountStep::Create,
            AccountLookup::Failed => AccountStep::Fail,
        },
{
    match found {
        AccountLookup::Found(id) => AccountStep::Use(id),
        AccountLookup::NotFound => AccountStep::Create,
        AccountLookup::Failed => AccountStep::Fail,
    }
}

/// After creating: use the new account; when another worker won the race,
/// look it up again.
pub fn after_create(created: AccountCreation) -> (r: AccountStep)
    ensures
        r == match created {
            AccountCreation::Created(id) => AccountStep::Use(id),
            AccountCreation::DuplicateUsername => AccountStep::LookUpAgain,
            AccountCreation::Failed => AccountStep::Fail,
        },
{
    match created {
        AccountCreation::Created(id) => AccountStep::Use(id),
        AccountCreation::DuplicateUsername => AccountStep::LookUpAgain,
        AccountCreation::Failed => AccountStep::Fail,
    }
}

} // verus!
