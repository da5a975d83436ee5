use tc_service::trust::action_queue::{truncate_error_message, ERROR_MESSAGE_MAX_LEN, QUEUE_NAME};

#[test]
fn truncate_error_message_passes_short_error_unchanged() {
    let error = "short error";
    assert_eq!(truncate_error_message(error), error);
}

#[test]
fn truncate_error_message_passes_exactly_max_len_unchanged() {
    let error = "x".repeat(ERROR_MESSAGE_MAX_LEN);
    assert_eq!(truncate_error_message(&error), error);
}

#[test]
fn truncate_error_message_truncates_to_max_len() {
    let error = "x".repeat(ERROR_MESSAGE_MAX_LEN + 10);
    let result = truncate_error_message(&error);
    assert_eq!(result.chars().count(), ERROR_MESSAGE_MAX_LEN);
}

#[test]
fn truncate_error_message_cuts_at_char_boundary_for_multibyte() {
    // Each '中' is 3 bytes; build a string that exceeds the limit by one char.
    let error = "中".repeat(ERROR_MESSAGE_MAX_LEN + 1);
    let result = truncate_error_message(&error);
    assert_eq!(result.chars().count(), ERROR_MESSAGE_MAX_LEN);
    // Must be valid UTF-8 — slicing inside a multibyte char would panic.
    assert!(std::str::from_utf8(result.as_bytes()).is_ok());
}

#[test]
fn truncate_error_message_returns_empty_for_empty_input() {
    assert_eq!(truncate_error_message(""), "");
}

#[test]
fn truncated_message_is_a_prefix_of_the_full_message() {
    let error = format!("{}{}", "ab".repeat(600), "tail");
    let result = truncate_error_message(&error);
    assert!(error.starts_with(result));
    assert_eq!(result.chars().count(), 1024);
}

#[test]
fn queue_name_is_trust_actions() {
    assert_eq!(QUEUE_NAME, "trust__actions");
}
