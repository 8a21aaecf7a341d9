use qfetch::order::{chars_lt, sort_rows};
use qfetch::text::{chars_of, lines_of, split_of, string_of, trim_chars, words_of};

fn cs(x: &str) -> Vec<char> {
    x.chars().collect()
}

fn strings(v: Vec<Vec<char>>) -> Vec<String> {
    v.into_iter().map(|l| l.into_iter().collect()).collect()
}

#[test]
fn lines_like_str_lines() {
    for text in ["", "a", "a\n", "a\r\nb", "a\n\nb\n", "\n", "x\r", "x\r\r\n", "a\nb\r"] {
        let expected: Vec<String> = text.lines().map(|l| l.to_string()).collect();
        assert_eq!(strings(lines_of(&cs(text))), expected, "{:?}", text);
    }
}

#[test]
fn split_like_str_split() {
    for text in ["", ":", "a:b", "a::b:", "/usr/bin"] {
        let expected: Vec<String> = text.split(':').map(|l| l.to_string()).collect();
        assert_eq!(strings(split_of(&cs(text), ':')), expected, "{:?}", text);
    }
}

#[test]
fn words_like_split_whitespace() {
    for text in ["", "  ", "a b", " a\t b \n c ", "x\u{3000}y"] {
        let expected: Vec<String> = text.split_whitespace().map(|l| l.to_string()).collect();
        assert_eq!(strings(words_of(&cs(text))), expected, "{:?}", text);
    }
}

#[test]
fn trims_like_str() {
    for text in ["", "  ", " a b ", "\u{85}x\u{2028}", "\"\"q\"", "\"\""] {
        assert_eq!(string_of(&trim_chars(&cs(text), false)), text.trim(), "{:?}", text);
        assert_eq!(string_of(&trim_chars(&cs(text), true)), text.trim_matches('"'), "{:?}", text);
    }
}

#[test]
fn chars_round_trip() {
    assert_eq!(string_of(&chars_of("héllo\u{1F600}")), "héllo\u{1F600}");
}

#[test]
fn text_order_like_string_order() {
    let words = ["", "a", "ab", "b", "é", "Z", "\u{1F600}", "aa"];
    for x in words {
        for y in words {
            assert_eq!(chars_lt(&cs(x), &cs(y)), x < y, "{:?} {:?}", x, y);
        }
    }
}

#[test]
fn sort_rows_like_sort_unstable() {
    let rows: Vec<(usize, &str, &str)> = vec![
        (3, "k", "a"),
        (1, "z", "sep"),
        (1, "a", "os"),
        (0, "", "title"),
        (253, "", "palette_sep"),
        (1, "a", "host"),
        (3, "k", "a"),
    ];
    let mut expected = rows.clone();
    expected.sort_unstable();
    let sorted = sort_rows(rows.iter().map(|r| (r.0, cs(r.1), cs(r.2))).collect());
    let got: Vec<(usize, String, String)> = sorted
        .into_iter()
        .map(|r| (r.0, r.1.into_iter().collect(), r.2.into_iter().collect()))
        .collect();
    let want: Vec<(usize, String, String)> =
        expected.into_iter().map(|r| (r.0, r.1.to_string(), r.2.to_string())).collect();
    assert_eq!(got, want);
}
