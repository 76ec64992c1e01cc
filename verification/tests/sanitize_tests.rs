use editrion_core::quote::{shell_quote, shell_word_literal};
use editrion_core::sanitize::strip_ansi;

#[test]
fn test_shell_quote() {
    assert_eq!(shell_quote("hello"), "'hello'");
    assert_eq!(shell_quote("hello world"), "'hello world'");
    assert_eq!(shell_quote("it's working"), "'it'\\''s working'");
    assert_eq!(shell_quote(""), "''");
}

#[test]
fn test_strip_ansi() {
    // Test normal string
    assert_eq!(strip_ansi("hello world"), "hello world");

    // Test string with ANSI escape codes
    let ansi_string = "\x1b[31mRed text\x1b[0m";
    let clean = strip_ansi(ansi_string);
    assert!(!clean.contains("\x1b"));
    assert!(clean.contains("Red text"));
}

#[test]
fn strip_is_idempotent_on_example() {
    let stripped = strip_ansi("\x1b[31mRed\x1b[0m line\n");
    assert_eq!(stripped, "Red line\n");
    assert_eq!(strip_ansi(&stripped), stripped);
}

#[test]
fn strip_removes_osc_sequences() {
    // OSC terminated by a bell
    assert_eq!(strip_ansi("\x1b]0;window title\x07rest"), "rest");
    // OSC terminated by ESC backslash
    assert_eq!(strip_ansi("\x1b]2;t\x1b\\x"), "x");
}

#[test]
fn strip_keeps_newline_tab_and_carriage_return() {
    assert_eq!(strip_ansi("a\tb\rc\nd\x07e"), "a\tb\rc\nde");
}

#[test]
fn strip_drops_unterminated_sequence() {
    assert_eq!(strip_ansi("before\x1b[31"), "before");
}

#[test]
fn strip_matches_reference_stripper_on_csi() {
    for input in [
        "\x1b[m\x1b[32m\x1b[1m    Finished\x1b[m release",
        "plain text, no escapes",
        "\x1b[31mRed text\x1b[0m",
    ] {
        let reference =
            String::from_utf8(strip_ansi_escapes::strip(input.as_bytes())).unwrap();
        assert_eq!(strip_ansi(input), reference);
    }
}

#[test]
fn quote_wraps_special_characters_literally() {
    assert_eq!(shell_quote("it's a test"), "'it'\\''s a test'");
    assert_eq!(shell_quote("a$b `c` ;d"), "'a$b `c` ;d'");
    assert_eq!(shell_quote("''"), "''\\'''\\'''");
}

#[test]
fn quoting_round_trips_through_a_posix_word() {
    for input in [
        "it's a test",
        "a$b",
        "`touch pwned`; echo",
        "plain",
        "",
        "' '",
        "tab\tand\nnewline",
    ] {
        let quoted = shell_quote(input);
        assert_eq!(shell_word_literal(&quoted).as_deref(), Some(input));
    }
}

#[test]
fn unsafe_words_are_rejected() {
    assert!(shell_word_literal("$(evil)").is_none());
    assert!(shell_word_literal("a b").is_none());
    assert!(shell_word_literal("'unterminated").is_none());
    assert!(shell_word_literal("trailing\\").is_none());
    assert_eq!(shell_word_literal("it\\'s").as_deref(), Some("it's"));
}
