use qfetch::color::{parse_x1b, ColorError};

#[test]
fn hex_six_digits() {
    assert_eq!(parse_x1b("#ff0000"), Ok("\x1b[38;2;255;0;0;m".to_string()));
    assert_eq!(parse_x1b("#0A0b0c"), Ok("\x1b[38;2;10;11;12;m".to_string()));
}

#[test]
fn hex_three_digits_are_not_expanded() {
    assert_eq!(parse_x1b("#f0a"), Err(ColorError::InvalidHex));
    assert_eq!(parse_x1b("#fff"), Err(ColorError::InvalidHex));
}

#[test]
fn hex_opaque_alpha_is_accepted() {
    assert_eq!(parse_x1b("#123456ff"), parse_x1b("#123456"));
    assert_eq!(parse_x1b("#123456FF"), Ok("\x1b[38;2;18;52;86;m".to_string()));
    assert_eq!(parse_x1b("#123456Ff"), parse_x1b("#123456"));
}

#[test]
fn hex_transparency_is_refused() {
    assert_eq!(parse_x1b("#12345680"), Err(ColorError::Transparency));
    assert_eq!(parse_x1b("#zzzzzz00"), Err(ColorError::Transparency));
}

#[test]
fn hex_of_wrong_length_or_digits_is_refused() {
    assert_eq!(parse_x1b("#ff00"), Err(ColorError::InvalidHex));
    assert_eq!(parse_x1b("#"), Err(ColorError::InvalidHex));
    assert_eq!(parse_x1b("#gg0000"), Err(ColorError::InvalidHex));
    assert_eq!(parse_x1b("#f0g"), Err(ColorError::InvalidHex));
    assert_eq!(parse_x1b("#é0000"), Err(ColorError::InvalidHex));
}

#[test]
fn hex_pair_with_plus_sign_reads_one_digit() {
    assert_eq!(parse_x1b("#+f0000"), Ok("\x1b[38;2;15;0;0;m".to_string()));
    assert_eq!(parse_x1b("#+00"), Err(ColorError::InvalidHex));
}

#[test]
fn ansi_colors() {
    assert_eq!(parse_x1b("a31"), Ok("\x1b[31m".to_string()));
    assert_eq!(parse_x1b("a30"), Ok("\x1b[30m".to_string()));
    assert_eq!(parse_x1b("a97"), Ok("\x1b[97m".to_string()));
    assert_eq!(parse_x1b("a90xyz"), Ok("\x1b[90m".to_string()));
}

#[test]
fn ansi_out_of_range_or_short_is_refused() {
    assert_eq!(parse_x1b("a38"), Err(ColorError::InvalidAnsi));
    assert_eq!(parse_x1b("a89"), Err(ColorError::InvalidAnsi));
    assert_eq!(parse_x1b("a29"), Err(ColorError::InvalidAnsi));
    assert_eq!(parse_x1b("a98"), Err(ColorError::InvalidAnsi));
    assert_eq!(parse_x1b("a3"), Err(ColorError::InvalidAnsi));
    assert_eq!(parse_x1b("a3x"), Err(ColorError::InvalidAnsi));
}

#[test]
fn other_colors_are_refused() {
    assert_eq!(parse_x1b("red"), Err(ColorError::InvalidColor));
    assert_eq!(parse_x1b(""), Err(ColorError::InvalidColor));
    assert_eq!(parse_x1b("A31"), Err(ColorError::InvalidColor));
}
