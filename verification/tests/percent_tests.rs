use editrion_core::percent::{hex, percent_decode};

#[test]
fn hex_digit_values() {
    assert_eq!(hex(b'0'), Some(0));
    assert_eq!(hex(b'9'), Some(9));
    assert_eq!(hex(b'a'), Some(10));
    assert_eq!(hex(b'f'), Some(15));
    assert_eq!(hex(b'A'), Some(10));
    assert_eq!(hex(b'F'), Some(15));
    assert_eq!(hex(b'g'), None);
    assert_eq!(hex(b' '), None);
}

#[test]
fn decodes_simple_escapes() {
    assert_eq!(percent_decode("%41"), "A");
    assert_eq!(percent_decode("a%20b"), "a b");
    assert_eq!(percent_decode("/Users/me/My%20File.txt"), "/Users/me/My File.txt");
}

#[test]
fn passes_plain_text_through() {
    assert_eq!(percent_decode("abc"), "abc");
    assert_eq!(percent_decode(""), "");
}

#[test]
fn malformed_escapes_pass_through() {
    assert_eq!(percent_decode("%zz"), "%zz");
    assert_eq!(percent_decode("%4"), "%4");
    assert_eq!(percent_decode("100%"), "100%");
    assert_eq!(percent_decode("%%41"), "%A");
}
