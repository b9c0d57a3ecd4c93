use nodelite::validation::{
    normalize_string_list, validate_identifier, validate_non_empty, validate_tag_list,
    ValidationError,
};

fn strings(values: &[&str]) -> Vec<String> {
    values.iter().map(|v| v.to_string()).collect()
}

#[test]
fn non_empty_accepts_text_and_refuses_blank() {
    assert!(validate_non_empty("name", " x ").is_ok());
    let err = validate_non_empty("name", " \t\n").unwrap_err();
    assert_eq!(err.message(), "name must not be empty");
    assert!(validate_non_empty("name", "").is_err());
}

#[test]
fn non_empty_counts_unicode_whitespace_as_blank() {
    assert!(validate_non_empty("name", "\u{3000}\u{a0}").is_err());
    assert!(validate_non_empty("name", "\u{200b}").is_ok());
}

#[test]
fn identifier_accepts_allowed_characters() {
    assert!(validate_identifier("node_id", "hk-01_a.b").is_ok());
    assert!(validate_identifier("node_id", &"a".repeat(128)).is_ok());
}

#[test]
fn identifier_errors_in_order() {
    assert_eq!(
        validate_identifier("node_id", "  ").unwrap_err().message(),
        "node_id must not be empty"
    );
    assert_eq!(
        validate_identifier("node_id", &"a".repeat(129)).unwrap_err().message(),
        "node_id must be <= 128 characters"
    );
    assert_eq!(
        validate_identifier("node_id", "hk 01").unwrap_err().message(),
        "node_id must use only ASCII letters, numbers, '-', '_' or '.'"
    );
}

#[test]
fn identifier_length_counts_bytes() {
    // 50 two-byte characters are 100 bytes: short enough, but not ASCII.
    assert_eq!(
        validate_identifier("id", &"é".repeat(50)).unwrap_err().message(),
        "id must use only ASCII letters, numbers, '-', '_' or '.'"
    );
    // 70 two-byte characters are 140 bytes: the length is refused first.
    assert_eq!(
        validate_identifier("id", &"é".repeat(70)).unwrap_err().message(),
        "id must be <= 128 characters"
    );
}

#[test]
fn tag_list_limits() {
    assert!(validate_tag_list("tags", &strings(&["a", "bc"]), 2, 2).is_ok());
    assert_eq!(
        validate_tag_list("tags", &strings(&["a", "b", "c"]), 2, 8).unwrap_err().message(),
        "tags must contain at most 2 tags"
    );
    assert_eq!(
        validate_tag_list("tags", &strings(&["ok", "toolong", "alsotoolong"]), 5, 3)
            .unwrap_err()
            .message(),
        "tags[1] must be <= 3 bytes"
    );
    assert_eq!(
        validate_tag_list("tags", &strings(&["éé"]), 5, 3).unwrap_err().message(),
        "tags[0] must be <= 3 bytes"
    );
    assert!(validate_tag_list("tags", &[], 0, 0).is_ok());
}

#[test]
fn normalize_trims_drops_blank_sorts_and_dedups() {
    let out = normalize_string_list(strings(&[" edge ", "apac", "", "edge", "  ", "apac "]));
    assert_eq!(out, strings(&["apac", "edge"]));
}

#[test]
fn normalize_sorts_by_byte_order() {
    let out = normalize_string_list(strings(&["b", "B", "a", "é", "ab", "A"]));
    assert_eq!(out, strings(&["A", "B", "a", "ab", "b", "é"]));
}

#[test]
fn normalize_is_idempotent_on_example() {
    let once = normalize_string_list(strings(&["z", " y", "x ", "y"]));
    let twice = normalize_string_list(once.clone());
    assert_eq!(once, twice);
}

#[test]
fn normalize_ignores_order_and_repeats_on_example() {
    let a = normalize_string_list(strings(&["c", "a", "b", "a"]));
    let b = normalize_string_list(strings(&["b", "c", "a"]));
    assert_eq!(a, b);
}

#[test]
fn normalize_trims_unicode_whitespace() {
    let out = normalize_string_list(strings(&["\u{3000}tag\u{a0}", "\u{85}\u{2028}", " tag"]));
    assert_eq!(out, strings(&["tag"]));
}

#[test]
fn normalize_of_empty_list_is_empty() {
    assert!(normalize_string_list(Vec::new()).is_empty());
}

#[test]
fn validation_error_keeps_message_and_compares_by_it() {
    let a = ValidationError::new("broken".to_string());
    assert_eq!(a.message(), "broken");
    assert_eq!(a.to_message_string(), "broken");
    assert!(a == ValidationError::new("broken".to_string()));
    assert!(a != ValidationError::new("other".to_string()));
}

#[test]
fn normalize_ignores_space_padding_on_example() {
    let values = strings(&["b", " a", "", "c "]);
    let padded: Vec<String> = values.iter().map(|v| format!(" {v} ")).collect();
    assert_eq!(normalize_string_list(padded), normalize_string_list(values));
}
