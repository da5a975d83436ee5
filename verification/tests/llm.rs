use tc_service::seed::config::SeedConfig;
use tc_service::seed::llm::build_messages as build_seed_messages;
use tc_service::sim::config::SimConfig;
use tc_service::sim::llm::{
    build_brand_curation_messages, build_brand_evidence_messages, build_messages,
    mock_company_curation, mock_company_evidence, Usage,
};

#[test]
fn builds_correct_messages() {
    let config = SeedConfig {
        openrouter_api_key: "test-key".to_string(),
        openrouter_model: "test-model".to_string(),
        target_rooms: 5,
        votes_per_poll: 15,
        system_prompt: "You are a test system.".to_string(),
        voter_count: 20,
    };

    let messages = build_seed_messages(&config, 2);
    assert_eq!(messages.len(), 2);
    assert_eq!(messages[0].role, "system");
    assert_eq!(messages[0].content, "You are a test system.");
    assert_eq!(messages[1].role, "user");
    assert!(
        messages[1].content.contains('2'),
        "user message should contain the room count"
    );
}

#[test]
fn llm_builds_correct_messages() {
    let config = SimConfig {
        api_url: "http://localhost:4000".to_string(),
        openrouter_api_key: "test-key".to_string(),
        openrouter_model: "test-model".to_string(),
        target_rooms: 5,
        votes_per_poll: 15,
        system_prompt: "You are a test system.".to_string(),
        voter_count: 20,
        log_level: "info".to_string(),
        mock_llm: false,
        poll_duration_secs: 86400,
        room_topic: "civic".to_string(),
        company_count: 25,
        exa_api_key: String::new(),
        evidence_model: "test-evidence-model".to_string(),
        dry_run: false,
        battery_config: None,
        battery_company: None,
        battery_ticker: None,
    };

    let messages = build_messages(&config, 2);
    assert_eq!(messages.len(), 2);
    assert_eq!(messages[0].role, "system");
    assert_eq!(messages[0].content, "You are a test system.");
    assert_eq!(messages[1].role, "user");
    assert!(
        messages[1].content.contains('2'),
        "user message should contain the room count"
    );
}

#[test]
fn seed_prompt_replaces_the_count_placeholder() {
    let config = SeedConfig {
        openrouter_api_key: String::new(),
        openrouter_model: String::new(),
        target_rooms: 5,
        votes_per_poll: 15,
        system_prompt: String::new(),
        voter_count: 20,
    };
    let messages = build_seed_messages(&config, 12);
    assert!(messages[1].content.starts_with("Generate exactly 12 community governance rooms."));
    assert!(!messages[1].content.contains("{N}"));
}

#[test]
fn brand_curation_prompt_names_the_count() {
    let messages = build_brand_curation_messages(25);
    assert_eq!(messages.len(), 2);
    assert_eq!(messages[0].role, "system");
    assert_eq!(messages[1].role, "user");
    assert!(messages[1].content.contains("25"));
}

#[test]
fn brand_evidence_prompt_names_the_company() {
    let messages = build_brand_evidence_messages("Sysco Corporation", "SYY");
    assert_eq!(messages.len(), 2);
    assert!(messages[1].content.contains("Sysco Corporation"));
    assert!(messages[1].content.contains("SYY"));
}

#[test]
fn mock_curation_cycles_the_mock_list() {
    let c = mock_company_curation(7);
    assert_eq!(c.companies.len(), 7);
    assert_eq!(c.companies[0].ticker, "SYY");
    assert_eq!(c.companies[4].ticker, "CTAS");
    assert_eq!(c.companies[5].ticker, "SYY");
    assert_eq!(c.companies[6].name, "Carrier Global");
    assert!(mock_company_curation(0).companies.is_empty());
}

#[test]
fn mock_evidence_has_the_five_dimensions() {
    let e = mock_company_evidence("Acme");
    assert_eq!(e.relevance_hook, "Acme affects daily life in ways most people don't realize.");
    assert_eq!(e.dimensions.len(), 5);
    assert_eq!(e.dimensions[0].0, "Labor Practices");
    let d = e.dimension("Consumer Trust").unwrap();
    assert_eq!(d.pro, vec!["Positive claim.".to_string()]);
    assert_eq!(d.con, vec!["Negative claim.".to_string()]);
    assert!(e.dimension("Unknown").is_none());
}

#[test]
fn usage_adds_field_by_field() {
    let mut u = Usage::zero();
    u.add_assign(Usage { prompt_tokens: 3, completion_tokens: 4, total_tokens: 7 });
    u.add_assign(Usage { prompt_tokens: 1, completion_tokens: 2, total_tokens: 3 });
    assert_eq!(u.prompt_tokens, 4);
    assert_eq!(u.completion_tokens, 6);
    assert_eq!(u.total_tokens, 10);
}
