//! Request validation: base64url-encoded Ed25519 public keys.
use vstd::prelude::*;

use crate::codec::{base64url_decoded, decode_base64url};
use crate::text::string_of;

verus! {

/// Size of an Ed25519 public key, in bytes.
pub const ED25519_PUBKEY_LEN: usize = 32;

/// Why a public key was refused.
#[derive(Debug, Clone, Copy, PartialEq, Eq, Structural)]
pub enum PubkeyError {
    /// The text is not base64url without padding.
    InvalidBase64url,
    /// The decoded key is not 32 bytes long.
    InvalidPubkeyLength,
}

impl PubkeyError {
    /// The error code reported to clients.
    pub fn code(&self) -> (r: String)
        ensures
            r@ == match *self {
                PubkeyError::InvalidBase64url => "invalid_base64url"@,
                PubkeyError::InvalidPubkeyLength => "invalid_pubkey_length"@,
            },
    {
        match self {
            PubkeyError::InvalidBase64url => string_of("invalid_base64url"),
            PubkeyError::InvalidPubkeyLength => string_of("invalid_pubkey_length"),
        }
    }
}

/// Check that `value` is a base64url-encoded Ed25519 public key: it must
/// decode, and to exactly 32 bytes.
pub fn validate_base64url_ed25519_pubkey(value: &str) -> (r: Result<(), PubkeyError>)
    ensures
        match base64url_decoded(value@) {
            None => r == Err::<(), PubkeyError>(PubkeyError::InvalidBase64url),
            Some(b) => if b.len() == ED25519_PUBKEY_LEN {
                r is Ok
            } else {
                r == Err::<(), PubkeyError>(PubkeyError::InvalidPubkeyLength)
            },
        },
{
    match decode_base64url(value) {
        None => Err(PubkeyError::InvalidBase64url),
        Some(bytes) => if bytes.len() != ED25519_PUBKEY_LEN {
            Err(PubkeyError::InvalidPubkeyLength)
        } else {
            Ok(())
        },
    }
}

} // verus!
