//! Deterministic names and key seeds of simulation accounts.
//!
//! The same index always gives the same username and the same key seeds;
//! turning a seed into an Ed25519 key pair is done by the application.
use vstd::prelude::*;

use sha2::{Digest, Sha256};

use crate::text::{decimal, decimal_two_digits, string_of, usize_to_decimal, usize_to_two_digits};
use vstd::string::StringExecFns;
use vstd::utf8::encode_utf8;

verus! {

/// The SHA-256 digest of `bytes`.
pub uninterp spec fn sha256(bytes: Seq<u8>) -> Seq<u8>;

/// SHA-256 digest by `sha2::Sha256::digest`.
///
/// Trusted: the result is the digest of these bytes, 32 bytes long (the
/// SHA-256 output size).
#[verifier::external_body]
fn sha256_digest(bytes: &[u8]) -> (r: Vec<u8>)
    ensures
        r@ == sha256(bytes@),
        r@.len() == 32,
{
    Sha256::digest(bytes).to_vec()
}

/// Username of the simulation account with this index: `sim_voter_` and
/// the index with at least two digits.
pub fn sim_username(index: usize) -> (r: String)
    ensures
        r@ == "sim_voter_"@ + decimal_two_digits(index as nat),
{
    let mut r = string_of("sim_voter_");
    let n = usize_to_two_digits(index);
    r.append(n.as_str());
    r
}

/// Text whose digest seeds the root key of account `index`.
pub open spec fn root_seed_text(index: nat) -> Seq<char> {
    "tc-sim-root-key-v1-"@ + decimal(index)
}

/// Text whose digest seeds the device key of account `index`.
pub open spec fn device_seed_text(index: nat) -> Seq<char> {
    "tc-sim-device-key-v1-"@ + decimal(index)
}

fn seed_of(prefix: &str, index: usize) -> (r: Vec<u8>)
    ensures
        r@ == sha256(encode_utf8(prefix@ + decimal(index as nat))),
        r@.len() == 32,
{
    let mut text = string_of(prefix);
    let n = usize_to_decimal(index);
    text.append(n.as_str());
    sha256_digest(text.as_str().as_bytes())
}

/// Seed of the root signing key of account `index`: the SHA-256 digest of
/// `tc-sim-root-key-v1-{index}`.
pub fn root_key_seed(index: usize) -> (r: Vec<u8>)
    ensures
        r@ == sha256(encode_utf8(root_seed_text(index as nat))),
        r@.len() == 32,
{
    seed_of("tc-sim-root-key-v1-", index)
}

/// Seed of the device signing key of account `index`: the SHA-256 digest
/// of `tc-sim-device-key-v1-{index}`.
pub fn device_key_seed(index: usize) -> (r: Vec<u8>)
    ensures
        r@ == sha256(encode_utf8(device_seed_text(index as nat))),
        r@.len() == 32,
{
    seed_of("tc-sim-device-key-v1-", index)
}

/// Seeds of a named account (the sim and demo verifiers): the SHA-256
/// digests of `{domain}-root-key-v1` and `{domain}-device-key-v1`.
pub fn named_key_seeds(domain: &str) -> (r: (Vec<u8>, Vec<u8>))
    ensures
        r.0@ == sha256(encode_utf8(domain@ + "-root-key-v1"@)),
        r.1@ == sha256(encode_utf8(domain@ + "-device-key-v1"@)),
{
    let mut root = string_of(domain);
    root.append("-root-key-v1");
    let mut device = string_of(domain);
    device.append("-device-key-v1");
    (sha256_digest(root.as_str().as_bytes()), sha256_digest(device.as_str().as_bytes()))
}

} // verus!
