use tc_service::trust::weight::{DeliveryMethod, RelationshipDepth};

#[test]
fn delivery_method_as_str_matches_db_constraint() {
    assert_eq!(DeliveryMethod::Qr.as_str(), "qr");
    assert_eq!(DeliveryMethod::Email.as_str(), "email");
    assert_eq!(DeliveryMethod::Video.as_str(), "video");
    assert_eq!(DeliveryMethod::Text.as_str(), "text");
    assert_eq!(DeliveryMethod::Messaging.as_str(), "messaging");
}

#[test]
fn relationship_depth_as_str_matches_db_constraint() {
    assert_eq!(RelationshipDepth::Years.as_str(), "years");
    assert_eq!(RelationshipDepth::Months.as_str(), "months");
    assert_eq!(RelationshipDepth::Acquaintance.as_str(), "acquaintance");
}

#[test]
fn delivery_method_names_are_distinct() {
    let names = [
        DeliveryMethod::Qr.as_str(),
        DeliveryMethod::Email.as_str(),
        DeliveryMethod::Video.as_str(),
        DeliveryMethod::Text.as_str(),
        DeliveryMethod::Messaging.as_str(),
    ];
    for i in 0..names.len() {
        for j in (i + 1)..names.len() {
            assert_ne!(names[i], names[j]);
        }
    }
}
