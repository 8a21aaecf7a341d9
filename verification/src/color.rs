//! Colors of the configuration: `#rrggbb` and `#rrggbbaa` hex colors and
//! `aNN` ANSI color numbers, turned into terminal escape sequences. Short
//! `#rgb` codes are not expanded: a hex color has all six digits.
use vstd::prelude::*;
use crate::literal::{hex_value, lemma_plain_add, plain};
use crate::text::{decimal, push_decimal, string_of};
use vstd::utf8::encode_utf8;

verus! {

/// Why a color of the configuration was refused.
#[derive(Debug, Clone, Copy, PartialEq, Eq)]
pub enum ColorError {
    /// A `#rrggbbaa` color whose alpha is not `ff`.
    Transparency,
    /// A `#` color of the wrong length (six digits, or eight with the alpha,
    /// are needed) or with a character that is not a hex digit.
    InvalidHex,
    /// An `a` color whose number is missing or outside 30..=37 and 90..=97.
    InvalidAnsi,
    /// A color that starts with neither `#` nor `a`.
    InvalidColor,
}

/// The value of the ASCII digit `b` in base 16 (`hex`) or base 10.
pub open spec fn digit_value(b: u8, hex: bool) -> Option<nat> {
    if 48 <= b <= 57 {
        Some((b - 48) as nat)
    } else if hex && 97 <= b <= 102 {
        Some((b - 87) as nat)
    } else if hex && 65 <= b <= 70 {
        Some((b - 55) as nat)
    } else {
        None
    }
}

/// The number that the two-byte text `a b` denotes in base 16 (`hex`) or base 10,
/// as `usize::from_str_radix` reads it: two digits, or a `+` sign and one digit.
pub open spec fn pair_value(a: u8, b: u8, hex: bool) -> Option<nat> {
    let radix: nat = if hex {
        16
    } else {
        10
    };
    if a == 43 {
        digit_value(b, hex)
    } else {
        match (digit_value(a, hex), digit_value(b, hex)) {
            (Some(x), Some(y)) => Some(x * radix + y),
            _ => None,
        }
    }
}

/// Whether `b` is `f` or `F`.
pub open spec fn is_f(b: u8) -> bool {
    b == 102 || b == 70
}

/// The escape sequence that selects the 24-bit foreground color `(r, g, b)`.
pub open spec fn truecolor(r: nat, g: nat, b: nat) -> Seq<char> {
    seq!['\x1b', '[', '3', '8', ';', '2', ';'] + decimal(r) + seq![';'] + decimal(g) + seq![';']
        + decimal(b) + seq![';', 'm']
}

/// The escape sequence that selects the ANSI color number `c`.
pub open spec fn ansi(c: nat) -> Seq<char> {
    seq!['\x1b', '['] + decimal(c) + seq!['m']
}

/// Whether `c` is an ANSI foreground color number: 30..=37 or 90..=97.
pub open spec fn valid_ansi(c: nat) -> bool {
    !(c < 30 || c > 97 || (c > 37 && c < 90))
}

/// The three channels of a hex color, read from the digit pairs after the `#`.
pub open spec fn hex_channels(b: Seq<u8>) -> Option<(nat, nat, nat)>
    recommends
        b.len() == 7 || b.len() == 9,
{
    let (r, g, bl) = (
        pair_value(b[1], b[2], true),
        pair_value(b[3], b[4], true),
        pair_value(b[5], b[6], true),
    );
    match (r, g, bl) {
        (Some(r), Some(g), Some(bl)) => Some((r, g, bl)),
        _ => None,
    }
}

/// What a color of the configuration, given by its UTF-8 bytes, turns into.
pub open spec fn color_code(b: Seq<u8>) -> Result<Seq<char>, ColorError> {
    if b.len() > 0 && b[0] == 35 {
        if b.len() == 9 && !(is_f(b[7]) && is_f(b[8])) {
            Err(ColorError::Transparency)
        } else if b.len() == 7 || b.len() == 9 {
            match hex_channels(b) {
                Some((r, g, bl)) => Ok(truecolor(r, g, bl)),
                None => Err(ColorError::InvalidHex),
            }
        } else {
            Err(ColorError::InvalidHex)
        }
    } else if b.len() > 0 && b[0] == 97 {
        if b.len() < 3 {
            Err(ColorError::InvalidAnsi)
        } else {
            match pair_value(b[1], b[2], false) {
                Some(c) => if valid_ansi(c) {
                    Ok(ansi(c))
                } else {
                    Err(ColorError::InvalidAnsi)
                },
                None => Err(ColorError::InvalidAnsi),
            }
        }
    } else {
        Err(ColorError::InvalidColor)
    }
}

fn digit_of(b: u8, hex: bool) -> (r: Option<u64>)
    ensures
        match r {
            Some(v) => digit_value(b, hex) == Some(v as nat),
            None => digit_value(b, hex) is None,
        },
{
    if 48 <= b && b <= 57 {
        Some((b - 48) as u64)
    } else if hex && 97 <= b && b <= 102 {
        Some((b - 87) as u64)
    } else if hex && 65 <= b && b <= 70 {
        Some((b - 55) as u64)
    } else {
        None
    }
}

fn pair_of(a: u8, b: u8, hex: bool) -> (r: Option<u64>)
    ensures
        match r {
            Some(v) => pair_value(a, b, hex) == Some(v as nat),
            None => pair_value(a, b, hex) is None,
        },
        r matches Some(v) ==> v < 256,
{
    if a == 43 {
        digit_of(b, hex)
    } else {
        match (digit_of(a, hex), digit_of(b, hex)) {
            (Some(x), Some(y)) => {
                let radix: u64 = if hex {
                    16
                } else {
                    10
                };
                Some(x * radix + y)
            },
            _ => None,
        }
    }
}

/// Turns a color of the configuration into its terminal escape sequence:
/// `#rrggbb` and `#rrggbbff` (alpha `ff` in either case) give a 24-bit
/// color, `aNN` gives the ANSI color `NN` (30..=37 or 90..=97; what follows the
/// two digits is ignored). Every other text is refused, with the error the
/// contract names.
pub fn parse_x1b(s: &str) -> (r: Result<String, ColorError>)
    ensures
        match r {
            Ok(o) => color_code(encode_utf8(s@)) == Ok::<Seq<char>, ColorError>(o@),
            Err(e) => color_code(encode_utf8(s@)) == Err::<Seq<char>, ColorError>(e),
        },
{
    let b = s.as_bytes();
    let n = b.len();
    if n > 0 && b[0] == 35 {
        if n == 9 && !((b[7] == 102 || b[7] == 70) && (b[8] == 102 || b[8] == 70)) {
            return Err(ColorError::Transparency);
        }
        if !(n == 7 || n == 9) {
            return Err(ColorError::InvalidHex);
        }
        let (r, g, bl) = (
            pair_of(b[1], b[2], true),
            pair_of(b[3], b[4], true),
            pair_of(b[5], b[6], true),
        );
        match (r, g, bl) {
            (Some(r), Some(g), Some(bl)) => {
                let mut out: Vec<char> = Vec::new();
                out.push('\x1b');
                out.push('[');
                out.push('3');
                out.push('8');
                out.push(';');
                out.push('2');
                out.push(';');
                push_decimal(&mut out, r);
                out.push(';');
                push_decimal(&mut out, g);
                out.push(';');
                push_decimal(&mut out, bl);
                out.push(';');
                out.push('m');
                assert(out@ == truecolor(r as nat, g as nat, bl as nat));
                Ok(string_of(&out))
            },
            _ => Err(ColorError::InvalidHex),
        }
    } else if n > 0 && b[0] == 97 {
        if n < 3 {
            return Err(ColorError::InvalidAnsi);
        }
        match pair_of(b[1], b[2], false) {
            Some(c) => {
                if c < 30 || c > 97 || (c > 37 && c < 90) {
                    Err(ColorError::InvalidAnsi)
                } else {
                    let mut out: Vec<char> = Vec::new();
                    out.push('\x1b');
                    out.push('[');
                    push_decimal(&mut out, c);
                    out.push('m');
                    assert(out@ == ansi(c as nat));
                    Ok(string_of(&out))
                }
            },
            None => Err(ColorError::InvalidAnsi),
        }
    } else {
        Err(ColorError::InvalidColor)
    }
}

proof fn lemma_decimal_plain(n: nat)
    ensures
        plain(decimal(n)),
    decreases n,
{
    if n >= 10 {
        lemma_decimal_plain(n / 10);
        let d = decimal(n / 10);
        let c = crate::text::digit_char(n % 10);
        assert(c as int == 48 + n % 10);
        lemma_plain_add(d, seq![c]);
        assert(d.push(c) =~= d + seq![c]);
    } else {
        let c = crate::text::digit_char(n);
        assert(c as int == 48 + n);
    }
}

/// Every escape sequence a color turns into is plain text: no backslash, no
/// double quote, no carriage return.
pub proof fn color_codes_are_plain(b: Seq<u8>)
    ensures
        color_code(b) matches Ok(t) ==> plain(t),
{
    if let Ok(t) = color_code(b) {
        if b.len() > 0 && b[0] == 35 {
            let (r, g, bl) = hex_channels(b)->0;
            lemma_decimal_plain(r);
            lemma_decimal_plain(g);
            lemma_decimal_plain(bl);
            let p0 = seq!['\x1b', '[', '3', '8', ';', '2', ';'];
            let s1 = seq![';'];
            let s2 = seq![';', 'm'];
            lemma_plain_add(p0, decimal(r));
            lemma_plain_add(p0 + decimal(r), s1);
            lemma_plain_add(p0 + decimal(r) + s1, decimal(g));
            lemma_plain_add(p0 + decimal(r) + s1 + decimal(g), s1);
            lemma_plain_add(p0 + decimal(r) + s1 + decimal(g) + s1, decimal(bl));
            lemma_plain_add(p0 + decimal(r) + s1 + decimal(g) + s1 + decimal(bl), s2);
        } else {
            let c = pair_value(b[1], b[2], false)->0;
            lemma_decimal_plain(c);
            lemma_plain_add(seq!['\x1b', '['], decimal(c));
            lemma_plain_add(seq!['\x1b', '['] + decimal(c), seq!['m']);
        }
    }
}

proof fn lemma_hex_digit(b: u8)
    ensures
        digit_value(b, true) == hex_value(b as char),
{
    assert((b as char) as int == b as int);
}

/// The value of the hex digit with the byte `b`; any for other bytes.
pub open spec fn hex_of(b: u8) -> nat {
    match hex_value(b as char) {
        Some(v) => v,
        None => 0,
    }
}

/// Hex colors are read in either case, each digit 0-9, a-f, A-F with its
/// usual value: a `#rrggbb` color whose six digits are hex digits gives the
/// 24-bit color of the three pairs' values.
pub proof fn hex_colors_read_either_case(b: Seq<u8>)
    requires
        b.len() == 7,
        b[0] == 35,
        forall|i: int| 1 <= i < 7 ==> hex_value(#[trigger] b[i] as char) is Some,
    ensures
        color_code(b) == Ok::<Seq<char>, ColorError>(
            truecolor(
                hex_of(b[1]) * 16 + hex_of(b[2]),
                hex_of(b[3]) * 16 + hex_of(b[4]),
                hex_of(b[5]) * 16 + hex_of(b[6]),
            ),
        ),
{
    assert(hex_value(b[1] as char) is Some && hex_value(b[2] as char) is Some);
    assert(hex_value(b[3] as char) is Some && hex_value(b[4] as char) is Some);
    assert(hex_value(b[5] as char) is Some && hex_value(b[6] as char) is Some);
    lemma_hex_digit(b[1]);
    lemma_hex_digit(b[2]);
    lemma_hex_digit(b[3]);
    lemma_hex_digit(b[4]);
    lemma_hex_digit(b[5]);
    lemma_hex_digit(b[6]);
    assert(b[1] != 43 && b[3] != 43 && b[5] != 43);
}

/// A short hex color is not expanded: `#rgb` is refused.
pub proof fn short_hex_is_refused(r: u8, g: u8, b: u8)
    ensures
        color_code(seq![35u8, r, g, b]) == Err::<Seq<char>, ColorError>(ColorError::InvalidHex),
{
}

/// An opaque alpha channel changes nothing: `#rrggbbff` (either case of `f`)
/// gives what `#rrggbb` gives.
pub proof fn opaque_alpha_is_ignored(c: Seq<u8>, a1: u8, a2: u8)
    requires
        c.len() == 7,
        c[0] == 35,
        is_f(a1),
        is_f(a2),
    ensures
        color_code(c + seq![a1, a2]) == color_code(c),
{
    let d = c + seq![a1, a2];
    assert(d[0] == 35 && d[1] == c[1] && d[2] == c[2] && d[3] == c[3] && d[4] == c[4]);
    assert(d[5] == c[5] && d[6] == c[6] && d[7] == a1 && d[8] == a2);
}

/// Any other alpha channel is refused as transparency.
pub proof fn other_alpha_is_refused(c: Seq<u8>, a1: u8, a2: u8)
    requires
        c.len() == 7,
        c[0] == 35,
        !(is_f(a1) && is_f(a2)),
    ensures
        color_code(c + seq![a1, a2]) == Err::<Seq<char>, ColorError>(ColorError::Transparency),
{
    let d = c + seq![a1, a2];
    assert(d[0] == 35 && d[7] == a1 && d[8] == a2);
}

} // verus!
