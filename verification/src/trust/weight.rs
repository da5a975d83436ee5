//! Invite delivery methods and relationship depths, as stored in the database.
//!
//! The endorsement weight derived from them is a floating-point value and is
//! computed outside this crate.
use vstd::prelude::*;

verus! {

/// Delivery method for a trust invite.
///
/// Variants must match the `trust_invites.delivery_method` DB check constraint.
#[derive(Debug, Clone, Copy, PartialEq, Eq, Structural)]
pub enum DeliveryMethod {
    Qr,
    Email,
    Video,
    Text,
    Messaging,
}

/// The stored name of each delivery method.
pub open spec fn delivery_method_name(m: DeliveryMethod) -> Seq<char> {
    match m {
        DeliveryMethod::Qr => "qr"@,
        DeliveryMethod::Email => "email"@,
        DeliveryMethod::Video => "video"@,
        DeliveryMethod::Text => "text"@,
        DeliveryMethod::Messaging => "messaging"@,
    }
}

impl DeliveryMethod {
    /// Return the canonical string representation used in the database.
    pub fn as_str(self) -> (r: &'static str)
        ensures
            r@ == delivery_method_name(self),
    {
        match self {
            Self::Qr => "qr",
            Self::Email => "email",
            Self::Video => "video",
            Self::Text => "text",
            Self::Messaging => "messaging",
        }
    }
}

/// Relationship depth for a trust invite.
///
/// Variants must match the `trust_invites.relationship_depth` DB check constraint.
#[derive(Debug, Clone, Copy, PartialEq, Eq, Structural)]
pub enum RelationshipDepth {
    Years,
    Months,
    Acquaintance,
}

/// The stored name of each relationship depth.
pub open spec fn relationship_depth_name(d: RelationshipDepth) -> Seq<char> {
    match d {
        RelationshipDepth::Years => "years"@,
        RelationshipDepth::Months => "months"@,
        RelationshipDepth::Acquaintance => "acquaintance"@,
    }
}

impl RelationshipDepth {
    /// Return the canonical string representation used in the database.
    pub fn as_str(self) -> (r: &'static str)
        ensures
            r@ == relationship_depth_name(self),
    {
        match self {
            Self::Years => "years",
            Self::Months => "months",
            Self::Acquaintance => "acquaintance",
        }
    }
}

/// Distinct delivery methods are stored under distinct names.
pub proof fn lemma_delivery_method_names_distinct(a: DeliveryMethod, b: DeliveryMethod)
    ensures
        delivery_method_name(a) == delivery_method_name(b) ==> a == b,
{
    reveal_strlit("qr");
    reveal_strlit("email");
    reveal_strlit("video");
    reveal_strlit("text");
    reveal_strlit("messaging");
    assert("qr"@[0] != "email"@[0] && "qr"@[0] != "video"@[0] && "qr"@[0] != "text"@[0]
        && "qr"@[0] != "messaging"@[0]);
    assert("email"@[0] != "video"@[0] && "email"@[0] != "text"@[0] && "email"@[0]
        != "messaging"@[0]);
    assert("video"@[0] != "text"@[0] && "video"@[0] != "messaging"@[0]);
    assert("text"@[0] != "messaging"@[0]);
}

/// Distinct relationship depths are stored under distinct names.
pub proof fn lemma_relationship_depth_names_distinct(a: RelationshipDepth, b: RelationshipDepth)
    ensures
        relationship_depth_name(a) == relationship_depth_name(b) ==> a == b,
{
    reveal_strlit("years");
    reveal_strlit("months");
    reveal_strlit("acquaintance");
    assert("years"@[0] != "months"@[0] && "years"@[0] != "acquaintance"@[0]);
    assert("months"@[0] != "acquaintance"@[0]);
}

} // verus!
