//! ID.me verification: the callback's inputs, the freshness of the signed
//! state, and the rule that keeps one ID.me identity on one account.
use vstd::prelude::*;

use crate::codec::{
    base64url_decoded, base64url_encoded, decode_base64url, encode_base64url, hmac_sha256,
    hmac_sha256_tag, hmac_sha256_verify, is_base64url_char, percent_encoded, url_encode, utf8_text,
};
use crate::text::{contains_char, string_of};
use vstd::string::{StrSliceExecFns, StringExecFns};
use vstd::utf8::{decode_utf8, encode_utf8, encode_utf8_decode_utf8, encode_utf8_valid_utf8, valid_utf8};

verus! {

/// The authorization URL returned to the client.
pub struct AuthorizeResponse {
    pub url: String,
}

/// OAuth callback query parameters from ID.me.
pub struct CallbackQuery {
    pub code: Option<String>,
    pub state: Option<String>,
    pub error: Option<String>,
    pub error_description: Option<String>,
}

/// Oldest signed state accepted, in seconds.
pub const STATE_MAX_AGE_SECS: i64 = 300;

/// The authorization code and signed state of a callback, or the message
/// shown when ID.me reported an error or either parameter is missing.
pub fn callback_inputs(query: &CallbackQuery) -> (r: Result<(&str, &str), String>)
    ensures
        query.error is Some ==> (r matches Err(m) && m@
            == "Identity verification was denied or cancelled"@),
        query.error is None && query.code is None ==> (r matches Err(m) && m@
            == "Missing authorization code"@),
        query.error is None && query.code is Some && query.state is None ==> (r matches Err(m)
            && m@ == "Missing state parameter"@),
        query.error is None && query.code is Some && query.state is Some ==> (r matches Ok(p)
            && p.0@ == query.code->0@ && p.1@ == query.state->0@),
{
    if query.error.is_some() {
        return Err(string_of("Identity verification was denied or cancelled"));
    }
    let code = match &query.code {
        Some(c) => c.as_str(),
        None => return Err(string_of("Missing authorization code")),
    };
    match &query.state {
        Some(s) => Ok((code, s.as_str())),
        None => Err(string_of("Missing state parameter")),
    }
}

/// A state signed at `ts` is still fresh at `now`: its age is between 0
/// and `STATE_MAX_AGE_SECS` seconds.
pub fn state_is_fresh(now: i64, ts: i64) -> (r: bool)
    requires
        i64::MIN <= now - ts <= i64::MAX,
    ensures
        r == (0 <= now - ts <= STATE_MAX_AGE_SECS),
{
    let age = now - ts;
    0 <= age && age <= STATE_MAX_AGE_SECS
}

/// What the store reports for an ID.me identity.
#[derive(Debug, Clone, Copy, PartialEq, Eq, Structural)]
pub enum IdentityLookup {
    /// Linked to this account.
    LinkedTo(u128),
    /// Not linked yet.
    NotFound,
    /// The lookup failed.
    Failed,
}

/// Next step for an identity verified for `account_id`.
#[derive(Debug, Clone, Copy, PartialEq, Eq, Structural)]
pub enum LinkDecision {
    /// Already linked to this account: nothing to store.
    AlreadyLinked,
    /// Not linked yet: link it to the account.
    Link,
}

/// The step taken for a verified ID.me identity: an identity linked to
/// another account is refused (one identity, one account); one linked to
/// this account needs nothing; an unlinked one is linked; a failed lookup fails.
pub fn identity_link_decision(lookup: IdentityLookup, account_id: u128) -> (r: Result<
    LinkDecision,
    String,
>)
    ensures
        lookup matches IdentityLookup::LinkedTo(owner) ==> if owner == account_id {
            r == Ok::<LinkDecision, String>(LinkDecision::AlreadyLinked)
        } else {
            r matches Err(m) && m@ == "This identity is already linked to another account"@
        },
        lookup is NotFound ==> r == Ok::<LinkDecision, String>(LinkDecision::Link),
        lookup is Failed ==> (r matches Err(m) && m@ == "Verification failed"@),
{
    match lookup {
        IdentityLookup::LinkedTo(owner) => {
            if owner != account_id {
                Err(string_of("This identity is already linked to another account"))
            } else {
                Ok(LinkDecision::AlreadyLinked)
            }
        },
        IdentityLookup::NotFound => Ok(LinkDecision::Link),
        IdentityLookup::Failed => Err(string_of("Verification failed")),
    }
}


/// Position of the first `c` in `s`, or -1 when there is none.
pub open spec fn first_index_of(s: Seq<char>, c: char) -> int
    decreases s.len(),
{
    if s.len() == 0 {
        -1
    } else if s[0] == c {
        0
    } else if first_index_of(s.drop_first(), c) < 0 {
        -1
    } else {
        first_index_of(s.drop_first(), c) + 1
    }
}

/// The signed form of a state payload: the base64url of its UTF-8 bytes, a
/// dot, and the base64url of their HMAC-SHA-256 tag under `secret`.
pub open spec fn signed_state(payload: Seq<char>, secret: Seq<u8>) -> Seq<char> {
    base64url_encoded(encode_utf8(payload)) + "."@ + base64url_encoded(
        hmac_sha256(secret, encode_utf8(payload)),
    )
}

/// What a signed state reads as under `secret`: its payload, or why it is
/// refused. The text is split at its first dot; the part before must decode
/// to UTF-8 text, the part after to the tag of those bytes.
pub open spec fn state_contents(state: Seq<char>, secret: Seq<u8>) -> Result<Seq<char>, Seq<char>> {
    let i = first_index_of(state, '.');
    if i < 0 {
        Err("invalid state format"@)
    } else {
        match base64url_decoded(state.take(i)) {
            None => Err("invalid state encoding"@),
            Some(bytes) => if !valid_utf8(bytes) {
                Err("invalid state encoding"@)
            } else {
                match base64url_decoded(state.skip(i + 1)) {
                    None => Err("invalid state encoding"@),
                    Some(tag) => if tag == hmac_sha256(secret, bytes) {
                        Ok(decode_utf8(bytes))
                    } else {
                        Err("invalid state signature"@)
                    },
                }
            },
        }
    }
}

proof fn lemma_first_index_after_prefix(a: Seq<char>, b: Seq<char>, c: char)
    requires
        forall|i: int| 0 <= i < a.len() ==> a[i] != c,
    ensures
        first_index_of(a + seq![c] + b, c) == a.len(),
    decreases a.len(),
{
    if a.len() == 0 {
        assert((a + seq![c] + b)[0] == c);
    } else {
        assert((a + seq![c] + b).drop_first() =~= a.drop_first() + seq![c] + b);
        lemma_first_index_after_prefix(a.drop_first(), b, c);
    }
}

fn first_dot(s: &str) -> (r: Option<usize>)
    ensures
        match r {
            Some(i) => i as int == first_index_of(s@, '.') && 0 <= i < s@.len(),
            None => first_index_of(s@, '.') == -1,
        },
{
    let n = s.unicode_len();
    let mut i: usize = 0;
    while i < n
        invariant
            n == s@.len(),
            i <= n,
            forall|k: int| 0 <= k < i ==> s@[k] != '.',
        decreases n - i,
    {
        if s.get_char(i) == '.' {
            proof {
                lemma_first_index_found(s@, i as int);
            }
            return Some(i);
        }
        i = i + 1;
    }
    proof {
        lemma_first_index_found(s@, n as int);
    }
    None
}

proof fn lemma_first_index_found(s: Seq<char>, i: int)
    requires
        0 <= i <= s.len(),
        forall|k: int| 0 <= k < i ==> s[k] != '.',
        i < s.len() ==> s[i] == '.',
    ensures
        first_index_of(s, '.') == if i < s.len() {
            i
        } else {
            -1
        },
    decreases s.len(),
{
    if s.len() > 0 && i > 0 {
        lemma_first_index_found(s.drop_first(), i - 1);
    }
}

/// Sign a state payload with `secret`; the result reads back as the same
/// payload under the same secret.
pub fn sign_state_payload(payload: &str, secret: &[u8]) -> (r: String)
    ensures
        r@ == signed_state(payload@, secret@),
        state_contents(r@, secret@) == Ok::<Seq<char>, Seq<char>>(payload@),
{
    let bytes = payload.as_bytes();
    let tag = hmac_sha256_tag(secret, bytes);
    let head = encode_base64url(bytes);
    let tail = encode_base64url(tag.as_slice());
    let mut r = head.clone();
    r.append(".");
    r.append(tail.as_str());
    proof {
        reveal_strlit(".");
        assert("."@ =~= seq!['.']);
        assert forall|i: int| 0 <= i < head@.len() implies head@[i] != '.' by {
            assert(is_base64url_char(head@[i]));
        }
        lemma_first_index_after_prefix(head@, tail@, '.');
        let k = head@.len() as int;
        assert(r@.take(k) =~= head@);
        assert(r@.skip(k + 1) =~= tail@);
        encode_utf8_valid_utf8(payload@);
        encode_utf8_decode_utf8(payload@);
    }
    r
}

/// Read a signed state under `secret`: the payload it carries, or why it
/// is refused (bad format, bad encoding, or a signature that does not match).
pub fn verify_state_payload(state: &str, secret: &[u8]) -> (r: Result<String, &'static str>)
    ensures
        match state_contents(state@, secret@) {
            Ok(p) => r matches Ok(s) && s@ == p,
            Err(m) => r matches Err(e) && e@ == m,
        },
{
    proof {
        reveal_strlit("invalid state format");
        reveal_strlit("invalid state encoding");
        reveal_strlit("invalid state signature");
    }
    let i = match first_dot(state) {
        Some(i) => i,
        None => return Err("invalid state format"),
    };
    let n = state.unicode_len();
    let head = state.substring_char(0, i);
    let tail = state.substring_char(i + 1, n);
    assert(head@ =~= state@.take(i as int));
    assert(tail@ =~= state@.skip(i + 1));
    let bytes = match decode_base64url(head) {
        Some(b) => b,
        None => return Err("invalid state encoding"),
    };
    let text = match utf8_text(bytes.as_slice()) {
        Some(t) => t,
        None => return Err("invalid state encoding"),
    };
    let tag = match decode_base64url(tail) {
        Some(t) => t,
        None => return Err("invalid state encoding"),
    };
    if !hmac_sha256_verify(secret, bytes.as_slice(), tag.as_slice()) {
        return Err("invalid state signature");
    }
    Ok(text)
}

/// The ID.me authorization URL for a client, its redirect URI and a signed
/// state, each parameter percent-encoded.
pub open spec fn authorize_url_text(base: Seq<char>, client_id: Seq<char>, redirect_uri: Seq<char>, state: Seq<char>) -> Seq<char> {
    base + "?client_id="@ + percent_encoded(encode_utf8(client_id)) + "&redirect_uri="@
        + percent_encoded(encode_utf8(redirect_uri)) + "&response_type=code&scope=openid&state="@
        + percent_encoded(encode_utf8(state))
}

/// Build the ID.me authorization URL.
pub fn authorize_url(base: &str, client_id: &str, redirect_uri: &str, signed_state: &str) -> (r: String)
    ensures
        r@ == authorize_url_text(base@, client_id@, redirect_uri@, signed_state@),
{
    let mut r = string_of(base);
    r.append("?client_id=");
    let c = url_encode(client_id);
    r.append(c.as_str());
    r.append("&redirect_uri=");
    let u = url_encode(redirect_uri);
    r.append(u.as_str());
    r.append("&response_type=code&scope=openid&state=");
    let s = url_encode(signed_state);
    r.append(s.as_str());
    r
}

/// The frontend URL a callback redirects to: the result status and message
/// are added as query parameters, after `&` when the base URL already has
/// a query and after `?` otherwise.
pub open spec fn frontend_redirect_text(base: Seq<char>, status: Seq<char>, message: Seq<char>) -> Seq<char> {
    base + (if base.contains('?') {
        "&"@
    } else {
        "?"@
    }) + "verification="@ + percent_encoded(encode_utf8(status)) + "&message="@ + percent_encoded(
        encode_utf8(message),
    )
}

/// Build the frontend URL a callback redirects to.
pub fn frontend_redirect_url(base: &str, status: &str, message: &str) -> (r: String)
    ensures
        r@ == frontend_redirect_text(base@, status@, message@),
{
    let mut r = string_of(base);
    if contains_char(base, '?') {
        r.append("&");
    } else {
        r.append("?");
    }
    r.append("verification=");
    let s = url_encode(status);
    r.append(s.as_str());
    r.append("&message=");
    let m = url_encode(message);
    r.append(m.as_str());
    r
}

} // verus!
