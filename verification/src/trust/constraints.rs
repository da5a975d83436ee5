//! Room constraints: whether a user may participate in a room, decided from
//! what the trust store reports about the user.
use vstd::prelude::*;

use crate::ids::{parse_uuid, render_uuid, uuid_parse, uuid_text};
use crate::text::{i64_to_decimal, signed_decimal, str_equals, string_of};
use vstd::string::StringExecFns;

verus! {

/// Result of a room eligibility check.
pub struct Eligibility {
    pub is_eligible: bool,
    /// Human-readable explanation if ineligible.
    pub reason: Option<String>,
}

/// What a trust score snapshot says about a user, as the constraints read it.
pub struct ScoreFacts {
    /// The snapshot holds a trust distance (the user is reachable from the anchor).
    pub has_trust_distance: bool,
    /// Vertex connectivity from the anchor, when computed.
    pub path_diversity: Option<i32>,
}

/// Eligibility with no reason.
pub open spec fn eligible(e: Eligibility) -> bool {
    e.is_eligible && e.reason is None
}

/// Ineligibility with the given reason.
pub open spec fn ineligible_because(e: Eligibility, reason: Seq<char>) -> bool {
    &&& !e.is_eligible
    &&& (e.reason matches Some(r) && r@ == reason)
}

fn refuse(reason: String) -> (e: Eligibility)
    ensures
        ineligible_because(e, reason@),
{
    Eligibility { is_eligible: false, reason: Some(reason) }
}

/// User must appear in the trust graph reachable from the configured anchor.
pub struct EndorsedByConstraint {
    pub anchor_id: u128,
}

impl EndorsedByConstraint {
    /// Create a new constraint requiring the user to be reachable from `anchor_id`.
    pub fn new(anchor_id: u128) -> (r: Self)
        ensures
            r.anchor_id == anchor_id,
    {
        Self { anchor_id }
    }

    /// A user is eligible when its score snapshot holds a trust distance.
    pub fn check(&self, snapshot: Option<ScoreFacts>) -> (e: Eligibility)
        ensures
            (snapshot matches Some(s) && s.has_trust_distance) ==> eligible(e),
            !(snapshot matches Some(s) && s.has_trust_distance) ==> ineligible_because(
                e,
                "not reachable from room anchor "@ + uuid_text(self.anchor_id) + " in trust graph"@,
            ),
    {
        match snapshot {
            Some(s) if s.has_trust_distance => Eligibility { is_eligible: true, reason: None },
            _ => {
                let mut msg = string_of("not reachable from room anchor ");
                let id = render_uuid(self.anchor_id);
                msg.append(id.as_str());
                msg.append(" in trust graph");
                refuse(msg)
            },
        }
    }
}

/// Message refusing a minimum diversity below 1.
pub open spec fn min_diversity_message(min_diversity: i32) -> Seq<char> {
    "min_diversity must be >= 1, got "@ + signed_decimal(min_diversity as int)
}

/// The message refusing a minimum diversity below 1.
fn min_diversity_refusal(min_diversity: i32) -> (m: String)
    ensures
        m@ == min_diversity_message(min_diversity),
{
    let mut msg = string_of("min_diversity must be >= 1, got ");
    let n = i64_to_decimal(min_diversity as i64);
    msg.append(n.as_str());
    msg
}

/// User must have `path_diversity >= min_diversity` (stricter sybil resistance).
pub struct CongressConstraint {
    pub anchor_id: u128,
    pub min_diversity: i32,
}

impl CongressConstraint {
    /// Create a new `CongressConstraint`; a `min_diversity` below 1 is refused.
    pub fn new(anchor_id: u128, min_diversity: i32) -> (r: Result<Self, String>)
        ensures
            min_diversity >= 1 <==> r is Ok,
            r matches Ok(c) ==> c.anchor_id == anchor_id && c.min_diversity == min_diversity,
            r matches Err(m) ==> m@ == min_diversity_message(min_diversity),
    {
        if min_diversity < 1 {
            return Err(min_diversity_refusal(min_diversity));
        }
        Ok(Self { anchor_id, min_diversity })
    }

    /// A user is eligible when its snapshot reports a path diversity of at
    /// least the minimum.
    pub fn check(&self, snapshot: Option<ScoreFacts>) -> (e: Eligibility)
        ensures
            snapshot is None ==> ineligible_because(e, "no trust score found for user"@),
            snapshot matches Some(s) ==> match s.path_diversity {
                None => ineligible_because(e, "path diversity not computed"@),
                Some(p) => if p < self.min_diversity {
                    ineligible_because(
                        e,
                        "path diversity "@ + signed_decimal(p as int) + " is below minimum "@
                            + signed_decimal(self.min_diversity as int),
                    )
                } else {
                    eligible(e)
                },
            },
    {
        match snapshot {
            None => refuse(string_of("no trust score found for user")),
            Some(s) => match s.path_diversity {
                None => refuse(string_of("path diversity not computed")),
                Some(p) => {
                    if p < self.min_diversity {
                        let mut msg = string_of("path diversity ");
                        let ps = i64_to_decimal(p as i64);
                        msg.append(ps.as_str());
                        msg.append(" is below minimum ");
                        let ms = i64_to_decimal(self.min_diversity as i64);
                        msg.append(ms.as_str());
                        refuse(msg)
                    } else {
                        Eligibility { is_eligible: true, reason: None }
                    }
                },
            },
        }
    }
}

/// Identity attestation from recognised verifiers: a user is eligible when
/// one of `verifier_ids` has issued them an active endorsement on `topic`.
pub struct IdentityVerifiedConstraint {
    pub verifier_ids: Vec<u128>,
    pub topic: String,
}

impl IdentityVerifiedConstraint {
    /// Create a new constraint requiring an endorsement from one of the given verifiers.
    pub fn new(verifier_ids: Vec<u128>, topic: String) -> (r: Self)
        ensures
            r.verifier_ids@ == verifier_ids@,
            r.topic@ == topic@,
    {
        Self { verifier_ids, topic }
    }

    /// Eligibility given whether such an endorsement exists.
    pub fn check(&self, verified: bool) -> (e: Eligibility)
        ensures
            verified ==> eligible(e),
            !verified ==> ineligible_because(
                e,
                "User has not completed identity verification from a recognised verifier"@,
            ),
    {
        if verified {
            Eligibility { is_eligible: true, reason: None }
        } else {
            refuse(
                string_of("User has not completed identity verification from a recognised verifier"),
            )
        }
    }
}


/// A numeric field of a constraint configuration.
#[derive(Debug, Clone, Copy, PartialEq, Eq, Structural)]
pub enum ConfigNumber {
    /// Missing or `null`: the default applies.
    Absent,
    /// An integer.
    Integer(i64),
    /// Present but not an integer.
    NotInteger,
}

/// What a constraint configuration holds, as the constraint builders read it.
pub struct ConstraintConfig {
    /// The `anchor_id` field, when it is a string.
    pub anchor_id: Option<String>,
    /// The `min_diversity` field.
    pub min_diversity: ConfigNumber,
    /// The string entries of the `verifier_ids` field, when it is an array.
    pub verifier_ids: Option<Vec<String>>,
    /// The message refusing the `max_distance` field as read (not a number,
    /// or too large for an `f32`), `None` when it reads; the field is a
    /// floating-point number, which the caller reads.
    pub max_distance_unreadable: Option<String>,
    /// The message refusing the `max_distance` value read (outside
    /// (0.0, 100.0]), `None` when it lies in that range.
    pub max_distance_out_of_range: Option<String>,
}

/// A constraint built from its type and configuration. A community
/// constraint is completed by the caller with its distance bound, a
/// floating-point number that the caller read and checked.
pub enum BuiltConstraint {
    EndorsedBy(EndorsedByConstraint),
    Community { anchor_id: u128, min_diversity: i32 },
    Congress(CongressConstraint),
    IdentityVerified(IdentityVerifiedConstraint),
}

/// The anchor a configuration names, or the message refusing it.
pub open spec fn config_anchor(anchor: Option<String>) -> Result<u128, Seq<char>> {
    match anchor {
        Some(a) => match uuid_parse(a@) {
            Some(id) => Ok(id),
            None => Err("constraint config requires valid UUID for 'anchor_id'"@),
        },
        None => Err("constraint config requires valid UUID for 'anchor_id'"@),
    }
}

/// The minimum diversity a configuration sets (`default` when absent), or
/// the message refusing it.
pub open spec fn config_min_diversity(field: ConfigNumber, default: i64) -> Result<i32, Seq<char>> {
    let v = match field {
        ConfigNumber::Absent => Some(default),
        ConfigNumber::Integer(n) => Some(n),
        ConfigNumber::NotInteger => None,
    };
    match v {
        None => Err("config field 'min_diversity' must be an integer"@),
        Some(n) => if i32::MIN <= n <= i32::MAX {
            Ok(n as i32)
        } else {
            Err("min_diversity value out of range for i32"@)
        },
    }
}

/// The verifier ids among `texts`: those that parse as UUIDs, in order.
pub open spec fn parsed_ids(texts: Seq<String>) -> Seq<u128>
    decreases texts.len(),
{
    if texts.len() == 0 {
        Seq::empty()
    } else {
        let prev = parsed_ids(texts.drop_last());
        match uuid_parse(texts.last()@) {
            Some(id) => prev.push(id),
            None => prev,
        }
    }
}

fn anchor_from(anchor: &Option<String>) -> (r: Result<u128, String>)
    ensures
        match config_anchor(*anchor) {
            Ok(id) => r == Ok::<u128, String>(id),
            Err(m) => r matches Err(x) && x@ == m,
        },
{
    match anchor {
        Some(a) => match parse_uuid(a.as_str()) {
            Ok(id) => return Ok(id),
            Err(_) => {},
        },
        None => {},
    }
    Err(string_of("constraint config requires valid UUID for 'anchor_id'"))
}

/// Read the minimum diversity of a configuration, `default` when absent.
pub fn min_diversity_from(field: ConfigNumber, default: i64) -> (r: Result<i32, String>)
    ensures
        match config_min_diversity(field, default) {
            Ok(n) => r == Ok::<i32, String>(n),
            Err(m) => r matches Err(x) && x@ == m,
        },
{
    let v = match field {
        ConfigNumber::Absent => default,
        ConfigNumber::Integer(n) => n,
        ConfigNumber::NotInteger => {
            return Err(string_of("config field 'min_diversity' must be an integer"));
        },
    };
    if v < i32::MIN as i64 || v > i32::MAX as i64 {
        return Err(string_of("min_diversity value out of range for i32"));
    }
    Ok(v as i32)
}

fn ids_from(texts: &Vec<String>) -> (r: Vec<u128>)
    ensures
        r@ == parsed_ids(texts@),
{
    let mut r: Vec<u128> = Vec::new();
    let mut i: usize = 0;
    while i < texts.len()
        invariant
            i <= texts@.len(),
            r@ == parsed_ids(texts@.take(i as int)),
        decreases texts@.len() - i,
    {
        assert(texts@.take(i + 1).drop_last() =~= texts@.take(i as int));
        match parse_uuid(texts[i].as_str()) {
            Ok(id) => r.push(id),
            Err(_) => {},
        }
        i = i + 1;
    }
    assert(texts@.take(texts@.len() as int) =~= texts@);
    r
}

/// Build the constraint of type `constraint_type` from its configuration:
/// `endorsed_by` needs an anchor; `community` an anchor, a readable distance
/// bound, a minimum diversity (default 2), a distance bound in (0.0, 100.0]
/// and a minimum diversity of at least 1, refused in that order; `congress`
/// an anchor and a minimum diversity (default 3, at least 1); `identity_verified` at least one parseable verifier id (ids
/// that do not parse are left out) and checks the `identity_verified` topic.
pub fn build_constraint(constraint_type: &str, config: &ConstraintConfig) -> (r: Result<BuiltConstraint, String>)
    ensures
        constraint_type@ == "endorsed_by"@ ==> match config_anchor(config.anchor_id) {
            Ok(id) => r matches Ok(BuiltConstraint::EndorsedBy(c)) && c.anchor_id == id,
            Err(m) => r matches Err(x) && x@ == m,
        },
        constraint_type@ == "community"@ ==> match config_anchor(config.anchor_id) {
            Err(m) => r matches Err(x) && x@ == m,
            Ok(id) => match config.max_distance_unreadable {
                Some(m) => r matches Err(x) && x@ == m@,
                None => match config_min_diversity(config.min_diversity, 2) {
                    Err(m) => r matches Err(x) && x@ == m,
                    Ok(d) => match config.max_distance_out_of_range {
                        Some(m) => r matches Err(x) && x@ == m@,
                        None => if d >= 1 {
                            r matches Ok(BuiltConstraint::Community { anchor_id, min_diversity })
                                && anchor_id == id && min_diversity == d
                        } else {
                            r matches Err(x) && x@ == min_diversity_message(d)
                        },
                    },
                },
            },
        },
        constraint_type@ == "congress"@ ==> match config_anchor(config.anchor_id) {
            Err(m) => r matches Err(x) && x@ == m,
            Ok(id) => match config_min_diversity(config.min_diversity, 3) {
                Err(m) => r matches Err(x) && x@ == m,
                Ok(d) => if d >= 1 {
                    r matches Ok(BuiltConstraint::Congress(c)) && c.anchor_id == id && c.min_diversity
                        == d
                } else {
                    r matches Err(x) && x@ == min_diversity_message(d)
                },
            },
        },
        constraint_type@ == "identity_verified"@ ==> match config.verifier_ids {
            None => r matches Err(x) && x@
                == "identity_verified constraint requires verifier_ids array in config"@,
            Some(texts) => if parsed_ids(texts@).len() == 0 {
                r matches Err(x) && x@ == "identity_verified constraint requires at least one verifier_id"@
            } else {
                r matches Ok(BuiltConstraint::IdentityVerified(c)) && c.verifier_ids@ == parsed_ids(
                    texts@,
                ) && c.topic@ == "identity_verified"@
            },
        },
        constraint_type@ != "endorsed_by"@ && constraint_type@ != "community"@ && constraint_type@
            != "congress"@ && constraint_type@ != "identity_verified"@ ==> (r matches Err(x) && x@
            == "unknown constraint type: "@ + constraint_type@),
{
    proof {
        reveal_strlit("endorsed_by");
        reveal_strlit("community");
        reveal_strlit("congress");
        reveal_strlit("identity_verified");
        assert("endorsed_by"@.len() == 11);
        assert("community"@.len() == 9);
        assert("congress"@.len() == 8);
        assert("identity_verified"@.len() == 17);
    }
    if str_equals(constraint_type, "endorsed_by") {
        let anchor = match anchor_from(&config.anchor_id) {
            Ok(a) => a,
            Err(m) => return Err(m),
        };
        Ok(BuiltConstraint::EndorsedBy(EndorsedByConstraint::new(anchor)))
    } else if str_equals(constraint_type, "community") {
        let anchor = match anchor_from(&config.anchor_id) {
            Ok(a) => a,
            Err(m) => return Err(m),
        };
        if let Some(m) = &config.max_distance_unreadable {
            return Err(m.clone());
        }
        let min = match min_diversity_from(config.min_diversity, 2) {
            Ok(d) => d,
            Err(m) => return Err(m),
        };
        if let Some(m) = &config.max_distance_out_of_range {
            return Err(m.clone());
        }
        if min < 1 {
            return Err(min_diversity_refusal(min));
        }
        Ok(BuiltConstraint::Community { anchor_id: anchor, min_diversity: min })
    } else if str_equals(constraint_type, "congress") {
        let anchor = match anchor_from(&config.anchor_id) {
            Ok(a) => a,
            Err(m) => return Err(m),
        };
        let min = match min_diversity_from(config.min_diversity, 3) {
            Ok(d) => d,
            Err(m) => return Err(m),
        };
        match CongressConstraint::new(anchor, min) {
            Ok(c) => Ok(BuiltConstraint::Congress(c)),
            Err(m) => Err(m),
        }
    } else if str_equals(constraint_type, "identity_verified") {
        let texts = match &config.verifier_ids {
            Some(t) => t,
            None => {
                return Err(
                    string_of("identity_verified constraint requires verifier_ids array in config"),
                );
            },
        };
        let ids = ids_from(texts);
        if ids.len() == 0 {
            return Err(string_of("identity_verified constraint requires at least one verifier_id"));
        }
        Ok(
            BuiltConstraint::IdentityVerified(
                IdentityVerifiedConstraint::new(ids, string_of("identity_verified")),
            ),
        )
    } else {
        let mut m = string_of("unknown constraint type: ");
        m.append(constraint_type);
        Err(m)
    }
}

} // verus!
