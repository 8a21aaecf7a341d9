use qfetch::literal::unescape_str;

fn u(s: &str) -> Option<String> {
    unescape_str(s)
}

#[test]
fn plain_text_is_kept() {
    assert_eq!(u(""), Some("".to_string()));
    assert_eq!(u("hello \x1b[0m"), Some("hello \x1b[0m".to_string()));
}

#[test]
fn simple_escapes() {
    assert_eq!(u("a\\nb\\tc\\rd"), Some("a\nb\tc\rd".to_string()));
    assert_eq!(u("\\\\ \\' \\\" \\0"), Some("\\ ' \" \0".to_string()));
}

#[test]
fn byte_and_unicode_escapes() {
    assert_eq!(u("\\x1b[0m\\x7F"), Some("\x1b[0m\x7f".to_string()));
    assert_eq!(u("\\u{2026}\\u{1_F6_00}\\u{41}"), Some("\u{2026}\u{1F600}A".to_string()));
    assert_eq!(u("\\x80"), None);
    assert_eq!(u("\\x4"), None);
    assert_eq!(u("\\u{D800}"), None);
    assert_eq!(u("\\u{110000}"), None);
    assert_eq!(u("\\u{}"), None);
    assert_eq!(u("\\u{_41}"), None);
    assert_eq!(u("\\u{1234567}"), None);
    assert_eq!(u("\\u41"), None);
}

#[test]
fn line_continuation_skips_leading_blanks() {
    assert_eq!(u("a\\\n   \t b"), Some("ab".to_string()));
    assert_eq!(u("a\\\r\n  b"), Some("ab".to_string()));
}

#[test]
fn crlf_is_read_as_lf() {
    assert_eq!(u("a\r\nb"), Some("a\nb".to_string()));
}

#[test]
fn refused_bodies() {
    assert_eq!(u("say \"hi\""), None);
    assert_eq!(u("a\rb"), None);
    assert_eq!(u("ends with \\"), None);
    assert_eq!(u("\\q"), None);
}
