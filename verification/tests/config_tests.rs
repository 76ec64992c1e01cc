use editrion_core::config::{update_toml_key, value_is_literal};

#[test]
fn test_value_is_literal_boolean() {
    assert!(value_is_literal("true"));
    assert!(value_is_literal("false"));
    assert!(value_is_literal("True"));
    assert!(value_is_literal("FALSE"));
}

#[test]
fn test_value_is_literal_numbers() {
    assert!(value_is_literal("42"));
    assert!(value_is_literal("-123"));
    assert!(value_is_literal("3.14"));
    assert!(value_is_literal("-0.5"));
}

#[test]
fn test_value_is_literal_strings() {
    assert!(value_is_literal("\"hello\""));
    assert!(value_is_literal("'world'"));
    assert!(!value_is_literal("hello"));
    assert!(!value_is_literal("world"));
}

#[test]
fn test_value_is_literal_arrays_objects() {
    assert!(value_is_literal("[1, 2, 3]"));
    assert!(value_is_literal("{\"key\": \"value\"}"));
    assert!(!value_is_literal("[1, 2"));
    // {key} starts and ends with braces, so it counts as a literal
    assert!(value_is_literal("{key}"));
}

#[test]
fn test_update_toml_key_new_key() {
    let original = "existing_key = \"value\"";
    let result = update_toml_key(original, "new_key", "new_value");
    assert!(result.contains("new_key = \"new_value\""));
    assert!(result.contains("existing_key = \"value\""));
}

#[test]
fn test_update_toml_key_update_existing() {
    let original = "key1 = \"old_value\"\nkey2 = 42";
    let result = update_toml_key(original, "key1", "new_value");
    assert!(result.contains("key1 = \"new_value\""));
    assert!(result.contains("key2 = 42"));
    assert!(!result.contains("old_value"));
}

#[test]
fn test_update_toml_key_literal_values() {
    let original = "";
    let result = update_toml_key(original, "bool_key", "true");
    assert!(result.contains("bool_key = true"));

    let result = update_toml_key(original, "num_key", "42");
    assert!(result.contains("num_key = 42"));
}

#[test]
fn update_replaces_every_matching_line() {
    let original = "a = 1\nb = 2\na = 3";
    let result = update_toml_key(original, "a", "9");
    assert_eq!(result, "a = 9\nb = 2\na = 9\n");
}

#[test]
fn update_respects_crlf_endings_and_indent() {
    let original = "  key = 1\r\nother = 2\r\n";
    let result = update_toml_key(original, "key", "done");
    assert_eq!(result, "key = \"done\"\nother = 2\n");
}

#[test]
fn update_prepends_when_key_only_prefixes() {
    // `keyring` starts with `key` but does not set it
    let original = "keyring = \"x\"";
    let result = update_toml_key(original, "key", "1");
    assert_eq!(result, "key = 1\nkeyring = \"x\"");
}

#[test]
fn literal_numbers_cover_float_grammar() {
    assert!(value_is_literal("1e10"));
    assert!(value_is_literal("-2.5E-3"));
    assert!(value_is_literal(".5"));
    assert!(value_is_literal("3."));
    assert!(value_is_literal("inf"));
    assert!(value_is_literal("NaN"));
    assert!(value_is_literal("  42  "));
    assert!(!value_is_literal("1e"));
    assert!(!value_is_literal("."));
    assert!(!value_is_literal("--1"));
    assert!(!value_is_literal("1.2.3"));
}
