use tc_service::trust::constraints::{build_constraint, BuiltConstraint, ConfigNumber, ConstraintConfig};

const ANCHOR: &str = "550e8400-e29b-41d4-a716-446655440000";

fn config(min_diversity: ConfigNumber, unreadable: Option<&str>, out_of_range: Option<&str>) -> ConstraintConfig {
    ConstraintConfig {
        anchor_id: Some(ANCHOR.to_string()),
        min_diversity,
        verifier_ids: None,
        max_distance_unreadable: unreadable.map(str::to_string),
        max_distance_out_of_range: out_of_range.map(str::to_string),
    }
}

fn err(r: Result<BuiltConstraint, String>) -> String {
    match r {
        Err(m) => m,
        Ok(_) => panic!("expected an error"),
    }
}

#[test]
fn community_defaults_min_diversity_to_two() {
    match build_constraint("community", &config(ConfigNumber::Absent, None, None)) {
        Ok(BuiltConstraint::Community { anchor_id, min_diversity }) => {
            assert_eq!(anchor_id, 0x550e8400_e29b_41d4_a716_446655440000);
            assert_eq!(min_diversity, 2);
        }
        _ => panic!("expected a community constraint"),
    }
}

#[test]
fn community_refuses_min_diversity_below_one() {
    assert_eq!(
        err(build_constraint("community", &config(ConfigNumber::Integer(0), None, None))),
        "min_diversity must be >= 1, got 0"
    );
    assert_eq!(
        err(build_constraint("community", &config(ConfigNumber::Integer(-3), None, None))),
        "min_diversity must be >= 1, got -3"
    );
}

#[test]
fn community_refuses_bad_min_diversity_fields() {
    assert_eq!(
        err(build_constraint("community", &config(ConfigNumber::NotInteger, None, None))),
        "config field 'min_diversity' must be an integer"
    );
    assert_eq!(
        err(build_constraint("community", &config(ConfigNumber::Integer(1 << 40), None, None))),
        "min_diversity value out of range for i32"
    );
}

#[test]
fn community_errors_come_in_the_original_order() {
    // The distance field is read before the minimum diversity.
    assert_eq!(
        err(build_constraint(
            "community",
            &config(ConfigNumber::NotInteger, Some("max_distance value too large"), None)
        )),
        "max_distance value too large"
    );
    // The minimum diversity is read before the distance range is checked.
    assert_eq!(
        err(build_constraint(
            "community",
            &config(ConfigNumber::NotInteger, None, Some("max_distance must be in (0.0, 100.0], got 0"))
        )),
        "config field 'min_diversity' must be an integer"
    );
    // The distance range is checked before the minimum diversity's bound.
    assert_eq!(
        err(build_constraint(
            "community",
            &config(ConfigNumber::Integer(0), None, Some("max_distance must be in (0.0, 100.0], got 0"))
        )),
        "max_distance must be in (0.0, 100.0], got 0"
    );
    // The anchor comes first of all.
    let mut c = config(ConfigNumber::Integer(0), Some("max_distance value too large"), None);
    c.anchor_id = Some("not-a-uuid".to_string());
    assert_eq!(
        err(build_constraint("community", &c)),
        "constraint config requires valid UUID for 'anchor_id'"
    );
}

#[test]
fn unknown_constraint_type_is_refused() {
    assert_eq!(
        err(build_constraint("lottery", &config(ConfigNumber::Absent, None, None))),
        "unknown constraint type: lottery"
    );
}
