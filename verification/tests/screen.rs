use qfetch::fetch::{fit_line, render};
use qfetch::logo::{colorize_logo, pad_lines, pad_logo, PaddingConfig};
use qfetch::color::ColorError;

fn s(x: &str) -> Option<String> {
    Some(x.to_string())
}

#[test]
fn render_puts_values_beside_the_logo() {
    let rows = vec![("K".to_string(), s("v1\nv2")), ("X".to_string(), None)];
    let out = render(&rows, "L1\nL2\nL3", "V", 100);
    assert_eq!(out, "L1KVv1\x1b[0m\nL2KVv2\x1b[0m\nL3\n");
}

#[test]
fn render_pads_value_lines_past_the_logo() {
    let rows = vec![("a".to_string(), s("1\n2\n3"))];
    let out = render(&rows, "ab\nc", "", 100);
    assert_eq!(out, "aba1\x1b[0m\nca2\x1b[0m\n  a3\x1b[0m\n");
}

#[test]
fn render_without_logo() {
    let rows = vec![("k: ".to_string(), s("x"))];
    assert_eq!(render(&rows, "", "", 80), "k: x\x1b[0m\n");
    assert_eq!(render(&vec![], "", "", 80), "");
}

#[test]
fn render_cuts_wide_lines() {
    let rows = vec![("K".to_string(), s("v1"))];
    let out = render(&rows, "L1", "V", 3);
    assert_eq!(out, "L1\x1b[0m\x1b[49;2m\u{2026}\x1b[0m\n");
}

#[test]
fn colorize_marks() {
    let colors = vec!["a31".to_string(), "#000000".to_string()];
    assert_eq!(
        colorize_logo("$1x$2y$0z", &colors),
        Ok("\x1b[31mx\x1b[38;2;0;0;0;my\x1b[31mz".to_string())
    );
    assert_eq!(colorize_logo("$3q$", &colors), Ok("$q$".to_string()));
    assert_eq!(colorize_logo("$$1", &colors), Ok("$\x1b[31m".to_string()));
    let bad = vec!["red".to_string()];
    assert_eq!(colorize_logo("ok $1", &bad), Err(ColorError::InvalidColor));
    assert_eq!(colorize_logo("ok $2", &bad), Ok("ok $".to_string()));
}

#[test]
fn pad_logo_to_the_widest_line() {
    let pad = PaddingConfig { left: 1, right: 1, fill: ".".to_string(), replace_spaces_with_char: false };
    assert_eq!(pad_logo("ab\nc", &pad), ".ab\x1b[0m.\\n.c\x1b[0m..\\n");
    let pad2 = PaddingConfig { left: 0, right: 0, fill: "-".to_string(), replace_spaces_with_char: true };
    assert_eq!(pad_logo("a b\n\x1b[31mxy", &pad2), "a-b\x1b[0m\\n\x1b[31mxy\x1b[0m-\\n");
    assert_eq!(pad_logo("", &pad2), "");
}

#[test]
fn fit_line_keeps_or_cuts() {
    assert_eq!(fit_line("abcdef", 6, "ignored", 6), "abcdef");
    assert_eq!(fit_line("abcdef", 6, "abcd", 5), "abcd\x1b[49;2m\u{2026}\x1b[0m");
}

#[test]
fn render_with_zero_width_terminal() {
    let rows = vec![("".to_string(), s("ab"))];
    assert_eq!(render(&rows, "", "", 0), "ab\x1b[0m\x1b[49;2m\u{2026}\x1b[0m\n");
}

#[test]
fn pad_lines_by_given_widths() {
    let pad = PaddingConfig { left: 2, right: 0, fill: "xy".to_string(), replace_spaces_with_char: true };
    assert_eq!(pad_lines("a\nb c", &vec![1, 3], &pad), "xyxya\x1b[0mxyxy\\nxyxybxyc\x1b[0m\\n");
}
