//! The settings' texts are Rust string literals: the keys and the logos of the
//! configuration are written with Rust's escapes (`\\`, `\n`, `\x1b`,
//! `\u{2026}`, a backslash at the end of a line to continue it), and a
//! double quote must be escaped. This module reads such a literal's body.
use vstd::prelude::*;
use crate::text::chars_of;

verus! {

/// The value of the hex digit `c`.
pub open spec fn hex_value(c: char) -> Option<nat> {
    if '0' <= c && c <= '9' {
        Some(((c as int) - ('0' as int)) as nat)
    } else if 'a' <= c && c <= 'f' {
        Some(((c as int) - ('a' as int) + 10) as nat)
    } else if 'A' <= c && c <= 'F' {
        Some(((c as int) - ('A' as int) + 10) as nat)
    } else {
        None
    }
}

/// Whether `v` is a Unicode scalar value: at most 0x10FFFF and not a surrogate.
pub open spec fn valid_scalar(v: nat) -> bool {
    v <= 0x10FFFF && !(0xD800 <= v && v <= 0xDFFF)
}

/// `s` with every `\r\n` turned into `\n`, as the text of a source file is read.
pub open spec fn crlf_to_lf(s: Seq<char>) -> Seq<char>
    decreases s.len(),
{
    if s.len() == 0 {
        seq![]
    } else if s.len() >= 2 && s[0] == '\r' && s[1] == '\n' {
        seq!['\n'] + crlf_to_lf(s.skip(2))
    } else {
        seq![s[0]] + crlf_to_lf(s.drop_first())
    }
}

/// The body of a `\u{...}` escape, read from position `i` of `s` (where `s[0]`
/// is the `{`), after `digits` hex digits of value `value`: the value and the
/// position after the closing `}`. One to six hex digits, the first not
/// preceded by `_`, underscores allowed after a digit.
pub open spec fn brace_body(s: Seq<char>, i: int, digits: nat, value: nat) -> Option<(nat, int)>
    decreases s.len() - i,
{
    if i < 0 || i >= s.len() {
        None
    } else if s[i] == '}' {
        if digits >= 1 {
            Some((value, i + 1))
        } else {
            None
        }
    } else if s[i] == '_' {
        if digits >= 1 {
            brace_body(s, i + 1, digits, value)
        } else {
            None
        }
    } else {
        match hex_value(s[i]) {
            Some(h) => if digits < 6 {
                brace_body(s, i + 1, digits + 1, value * 16 + h)
            } else {
                None
            },
            None => None,
        }
    }
}

pub proof fn lemma_brace_body_bound(s: Seq<char>, i: int, digits: nat, value: nat)
    ensures
        brace_body(s, i, digits, value) matches Some((v, n)) ==> i < n <= s.len(),
    decreases s.len() - i,
{
    if 0 <= i < s.len() && s[i] != '}' {
        if s[i] == '_' {
            lemma_brace_body_bound(s, i + 1, digits, value);
        } else if let Some(h) = hex_value(s[i]) {
            if digits < 6 {
                lemma_brace_body_bound(s, i + 1, digits + 1, value * 16 + h);
            }
        }
    }
}

/// The number of leading spaces, tabs, line feeds and carriage returns of `s`.
pub open spec fn blank_prefix(s: Seq<char>) -> nat
    decreases s.len(),
{
    if s.len() > 0 && (s[0] == ' ' || s[0] == '\t' || s[0] == '\n' || s[0] == '\r') {
        1 + blank_prefix(s.drop_first())
    } else {
        0
    }
}

pub proof fn lemma_blank_prefix_bound(s: Seq<char>)
    ensures
        blank_prefix(s) <= s.len(),
    decreases s.len(),
{
    if s.len() > 0 && (s[0] == ' ' || s[0] == '\t' || s[0] == '\n' || s[0] == '\r') {
        lemma_blank_prefix_bound(s.drop_first());
    }
}

/// `c` followed by the text `rest`, if there is one.
pub open spec fn cons(c: char, rest: Option<Seq<char>>) -> Option<Seq<char>> {
    match rest {
        Some(r) => Some(seq![c] + r),
        None => None,
    }
}

/// The text that the body `s` of a string literal denotes, or nothing where
/// it is not a valid body: an unescaped `"` or a carriage return, or an
/// unknown or malformed escape.
pub open spec fn unescape_body(s: Seq<char>) -> Option<Seq<char>>
    decreases s.len(),
{
    if s.len() == 0 {
        Some(seq![])
    } else if s[0] == '"' || s[0] == '\r' {
        None
    } else if s[0] != '\\' {
        cons(s[0], unescape_body(s.drop_first()))
    } else if s.len() < 2 {
        None
    } else if s[1] == 'n' {
        cons('\n', unescape_body(s.skip(2)))
    } else if s[1] == 'r' {
        cons('\r', unescape_body(s.skip(2)))
    } else if s[1] == 't' {
        cons('\t', unescape_body(s.skip(2)))
    } else if s[1] == '\\' {
        cons('\\', unescape_body(s.skip(2)))
    } else if s[1] == '0' {
        cons('\0', unescape_body(s.skip(2)))
    } else if s[1] == '\'' {
        cons('\'', unescape_body(s.skip(2)))
    } else if s[1] == '"' {
        cons('"', unescape_body(s.skip(2)))
    } else if s[1] == 'x' {
        if s.len() >= 4 && '0' <= s[2] && s[2] <= '7' && hex_value(s[3]) is Some {
            let v = ((s[2] as int) - ('0' as int)) * 16 + hex_value(s[3])->0;
            cons(v as char, unescape_body(s.skip(4)))
        } else {
            None
        }
    } else if s[1] == 'u' {
        if s.len() >= 3 && s[2] == '{' {
            proof {
                lemma_brace_body_bound(s.skip(2), 1, 0, 0);
            }
            match brace_body(s.skip(2), 1, 0, 0) {
                Some((v, n)) => if valid_scalar(v) {
                    cons(v as char, unescape_body(s.skip(2 + n)))
                } else {
                    None
                },
                None => None,
            }
        } else {
            None
        }
    } else if s[1] == '\n' {
        proof {
            lemma_blank_prefix_bound(s.skip(2));
        }
        unescape_body(s.skip(2 + blank_prefix(s.skip(2)) as int))
    } else {
        None
    }
}

/// The text that `s`, written as the body of a Rust string literal, denotes.
#[verifier::opaque]
pub open spec fn unescape(s: Seq<char>) -> Option<Seq<char>> {
    unescape_body(crlf_to_lf(s))
}

/// Whether `s` holds no backslash, no double quote and no carriage return.
pub open spec fn plain(s: Seq<char>) -> bool {
    forall|i: int| 0 <= i < s.len() ==> s[i] != '\\' && s[i] != '"' && s[i] != '\r'
}

/// Plain texts joined are plain.
pub proof fn lemma_plain_add(a: Seq<char>, b: Seq<char>)
    requires
        plain(a),
        plain(b),
    ensures
        plain(a + b),
{
    assert forall|i: int| 0 <= i < (a + b).len() implies (a + b)[i] != '\\' && (a + b)[i] != '"'
        && (a + b)[i] != '\r' by {
        if i < a.len() {
            assert((a + b)[i] == a[i]);
        } else {
            assert((a + b)[i] == b[i - a.len()]);
        }
    }
}

proof fn lemma_plain_body(s: Seq<char>)
    requires
        plain(s),
    ensures
        crlf_to_lf(s) == s,
        unescape_body(s) == Some(s),
    decreases s.len(),
{
    if s.len() > 0 {
        let t = s.drop_first();
        assert(plain(t)) by {
            assert forall|i: int| 0 <= i < t.len() implies t[i] != '\\' && t[i] != '"' && t[i]
                != '\r' by {
                assert(t[i] == s[i + 1]);
            }
        }
        lemma_plain_body(t);
        assert(s[0] != '\r');
        assert(seq![s[0]] + t =~= s);
    }
}

/// A text with no backslash, double quote or carriage return reads as itself.
pub proof fn plain_text_reads_as_itself(s: Seq<char>)
    requires
        plain(s),
    ensures
        unescape(s) == Some(s),
{
    reveal(unescape);
    lemma_plain_body(s);
}

proof fn lemma_crlf_prefix(p: Seq<char>, q: Seq<char>)
    requires
        forall|i: int| 0 <= i < p.len() ==> p[i] != '\r',
    ensures
        crlf_to_lf(p + q) == p + crlf_to_lf(q),
    decreases p.len(),
{
    if p.len() > 0 {
        let t = p.drop_first();
        assert forall|i: int| 0 <= i < t.len() implies t[i] != '\r' by {
            assert(t[i] == p[i + 1]);
        }
        lemma_crlf_prefix(t, q);
        assert((p + q)[0] == p[0]);
        assert((p + q).drop_first() =~= t + q);
        assert(seq![p[0]] + (t + crlf_to_lf(q)) =~= p + crlf_to_lf(q));
    } else {
        assert(p + q =~= q);
        assert(p + crlf_to_lf(q) =~= crlf_to_lf(q));
    }
}

proof fn lemma_body_prefix(p: Seq<char>, q: Seq<char>)
    requires
        plain(p),
    ensures
        unescape_body(p + q) == prepend_text(p, unescape_body(q)),
    decreases p.len(),
{
    if p.len() > 0 {
        let t = p.drop_first();
        assert(plain(t)) by {
            assert forall|i: int| 0 <= i < t.len() implies t[i] != '\\' && t[i] != '"' && t[i]
                != '\r' by {
                assert(t[i] == p[i + 1]);
            }
        }
        lemma_body_prefix(t, q);
        assert((p + q)[0] == p[0]);
        assert((p + q).drop_first() =~= t + q);
        if let Some(r) = unescape_body(q) {
            assert(seq![p[0]] + (t + r) =~= p + r);
        }
    } else {
        assert(p + q =~= q);
        if let Some(r) = unescape_body(q) {
            assert(p + r =~= r);
        }
    }
}

/// A text that starts with plain text reads as that text followed by what
/// the rest reads as.
pub proof fn plain_prefix_reads_as_itself(p: Seq<char>, q: Seq<char>)
    requires
        plain(p),
    ensures
        unescape(p + q) == prepend_text(p, unescape(q)),
{
    reveal(unescape);
    lemma_crlf_prefix(p, q);
    lemma_body_prefix(p, crlf_to_lf(q));
}

/// The written suffix of a key, `:` and the escape `\x1b[0m` and a space,
/// reads as `:`, the reset sequence and a space.
pub proof fn key_suffix_reads_as_reset()
    ensures
        unescape(seq![':', '\\', 'x', '1', 'b', '[', '0', 'm', ' ']) == Some(
            seq![':', '\x1b', '[', '0', 'm', ' '],
        ),
{
    reveal(unescape);
    let s = seq![':', '\\', 'x', '1', 'b', '[', '0', 'm', ' '];
    let rest = s.drop_first();
    let tail = seq!['[', '0', 'm', ' '];
    lemma_crlf_prefix(s, seq![]);
    assert(s + seq![] =~= s);
    assert(crlf_to_lf(Seq::<char>::empty()) == Seq::<char>::empty());
    assert(s + crlf_to_lf(Seq::<char>::empty()) =~= s);
    assert(plain(tail));
    lemma_plain_body(tail);
    assert(rest.skip(4) =~= tail);
    assert(rest[0] == '\\' && rest[1] == 'x' && rest[2] == '1' && rest[3] == 'b');
    assert(hex_value('b') == Some(11nat));
    assert(((rest[2] as int) - ('0' as int)) * 16 + 11 == 27);
    assert(27int as char == '\x1b');
    assert(unescape_body(rest) == Some(seq!['\x1b'] + tail));
    assert(seq![':'] + (seq!['\x1b'] + tail) =~= seq![':', '\x1b', '[', '0', 'm', ' ']);
}

/// The character of the scalar value `v`; calls `char::from_u32`, which the
/// std documentation describes as returning the `char` of `v`, or `None`
/// where `v` is not a valid `char`.
#[verifier::external_body]
fn char_of(v: u32) -> (c: Option<char>)
    ensures
        c == if valid_scalar(v as nat) {
            Some(v as char)
        } else {
            None::<char>
        },
{
    char::from_u32(v)
}

fn hex_of(c: char) -> (r: Option<u32>)
    ensures
        match r {
            Some(h) => hex_value(c) == Some(h as nat) && h < 16,
            None => hex_value(c) is None,
        },
{
    if '0' <= c && c <= '9' {
        Some(digit_of(c))
    } else if 'a' <= c && c <= 'f' {
        Some(10 + letter_of(c, 'a'))
    } else if 'A' <= c && c <= 'F' {
        Some(10 + letter_of(c, 'A'))
    } else {
        None
    }
}

fn digit_of(c: char) -> (d: u32)
    requires
        '0' <= c <= '9',
    ensures
        d == (c as int) - ('0' as int),
{
    match c {
        '0' => 0,
        '1' => 1,
        '2' => 2,
        '3' => 3,
        '4' => 4,
        '5' => 5,
        '6' => 6,
        '7' => 7,
        '8' => 8,
        _ => 9,
    }
}

fn letter_of(c: char, base: char) -> (d: u32)
    requires
        base == 'a' || base == 'A',
        base <= c,
        (c as int) - (base as int) <= 5,
    ensures
        d == (c as int) - (base as int),
{
    if base == 'a' {
        match c {
            'a' => 0,
            'b' => 1,
            'c' => 2,
            'd' => 3,
            'e' => 4,
            _ => 5,
        }
    } else {
        match c {
            'A' => 0,
            'B' => 1,
            'C' => 2,
            'D' => 3,
            'E' => 4,
            _ => 5,
        }
    }
}

/// `v` with every `\r\n` turned into `\n`.
pub fn crlf_to_lf_chars(v: &Vec<char>) -> (out: Vec<char>)
    ensures
        out@ == crlf_to_lf(v@),
{
    let mut out: Vec<char> = Vec::new();
    let mut i: usize = 0;
    assert(v@.skip(0) == v@);
    assert(out@ + crlf_to_lf(v@) == crlf_to_lf(v@));
    while i < v.len()
        invariant
            0 <= i <= v.len(),
            crlf_to_lf(v@) == out@ + crlf_to_lf(v@.skip(i as int)),
        decreases v.len() - i,
    {
        let ghost rest = v@.skip(i as int);
        assert(rest[0] == v@[i as int]);
        if i + 1 < v.len() && v[i] == '\r' && v[i + 1] == '\n' {
            assert(rest[1] == v@[i + 1]);
            assert(rest.skip(2) == v@.skip(i + 2));
            let ghost o = out@;
            out.push('\n');
            assert(o + crlf_to_lf(rest) == out@ + crlf_to_lf(v@.skip(i + 2)));
            i += 2;
        } else {
            assert(rest.drop_first() == v@.skip(i + 1));
            assert(!(rest.len() >= 2 && rest[0] == '\r' && rest[1] == '\n')) by {
                if rest.len() >= 2 {
                    assert(rest[1] == v@[i + 1]);
                }
            }
            let ghost o = out@;
            out.push(v[i]);
            assert(o + crlf_to_lf(rest) == out@ + crlf_to_lf(v@.skip(i + 1)));
            i += 1;
        }
    }
    assert(v@.skip(i as int) == Seq::<char>::empty());
    assert(out@ + Seq::<char>::empty() == out@);
    out
}

/// `Some(pre + r)` for `Some(r)`, else nothing.
pub open spec fn prepend_text(pre: Seq<char>, r: Option<Seq<char>>) -> Option<Seq<char>> {
    match r {
        Some(t) => Some(pre + t),
        None => None,
    }
}

proof fn lemma_prepend_cons(pre: Seq<char>, c: char, r: Option<Seq<char>>)
    ensures
        prepend_text(pre, cons(c, r)) == prepend_text(pre.push(c), r),
{
    if let Some(t) = r {
        assert(pre + (seq![c] + t) == pre.push(c) + t);
    }
}

/// Reads a `\u{...}` escape whose `{` is at `start`: its value and the
/// position after its `}`.
fn read_brace(v: &Vec<char>, start: usize) -> (r: Option<(u32, usize)>)
    requires
        start < v.len(),
        v@[start as int] == '{',
    ensures
        match r {
            Some((val, end)) => brace_body(v@.skip(start as int), 1, 0, 0) == Some(
                (val as nat, end - start),
            ) && start < end <= v.len(),
            None => brace_body(v@.skip(start as int), 1, 0, 0) is None,
        },
{
    let ghost s = v@.skip(start as int);
    let mut i: usize = start + 1;
    let mut digits: u32 = 0;
    let mut value: u32 = 0;
    while i < v.len()
        invariant
            start < i <= v.len(),
            s == v@.skip(start as int),
            digits <= 6,
            value < pow16(digits as nat),
            brace_body(s, 1, 0, 0) == brace_body(s, i - start, digits as nat, value as nat),
        decreases v.len() - i,
    {
        assert(s[i - start] == v@[i as int]);
        let c = v[i];
        if c == '}' {
            if digits >= 1 {
                return Some((value, i + 1));
            } else {
                return None;
            }
        } else if c == '_' {
            if digits == 0 {
                return None;
            }
            i += 1;
        } else {
            match hex_of(c) {
                Some(h) => {
                    if digits >= 6 {
                        return None;
                    }
                    proof {
                        lemma_pow16_step(digits as nat, value as nat, h as nat);
                    }
                    value = value * 16 + h;
                    digits += 1;
                    i += 1;
                },
                None => {
                    return None;
                },
            }
        }
    }
    None
}

/// 16 to the power `d`.
pub open spec fn pow16(d: nat) -> nat
    decreases d,
{
    if d == 0 {
        1
    } else {
        16 * pow16((d - 1) as nat)
    }
}

proof fn lemma_pow16_step(d: nat, value: nat, h: nat)
    requires
        d < 6,
        value < pow16(d),
        h < 16,
    ensures
        value * 16 + h < pow16(d + 1),
        pow16(d + 1) <= 0x1000000,
{
    assert(pow16(d + 1) == 16 * pow16(d));
    assert(value * 16 + h < 16 * pow16(d)) by (nonlinear_arith)
        requires
            value < pow16(d),
            h < 16,
    ;
    reveal_with_fuel(pow16, 7);
    if d == 0 {
    } else if d == 1 {
    } else if d == 2 {
    } else if d == 3 {
    } else if d == 4 {
    } else {
    }
}

fn ascii_char(v: u32) -> (c: char)
    requires
        v < 128,
    ensures
        c == v as char,
{
    let b: u8 = v as u8;
    b as char
}

/// The text that `v`, the body of a Rust string literal, denotes; see `unescape`.
pub fn unescape_chars(v: &Vec<char>) -> (r: Option<Vec<char>>)
    ensures
        match r {
            Some(t) => unescape(v@) == Some(t@),
            None => unescape(v@) is None,
        },
{
    reveal(unescape);
    let s = crlf_to_lf_chars(v);
    let mut out: Vec<char> = Vec::new();
    let mut i: usize = 0;
    assert(s@.skip(0) == s@);
    assert(prepend_text(out@, unescape_body(s@)) == unescape_body(s@)) by {
        if let Some(t) = unescape_body(s@) {
            assert(out@ + t == t);
        }
    }
    while i < s.len()
        invariant
            0 <= i <= s.len(),
            s@ == crlf_to_lf(v@),
            unescape(v@) == prepend_text(out@, unescape_body(s@.skip(i as int))),
        decreases s.len() - i,
    {
        let ghost rest = s@.skip(i as int);
        assert(rest[0] == s@[i as int]);
        let c = s[i];
        if c == '"' || c == '\r' {
            return None;
        }
        if c != '\\' {
            assert(rest.drop_first() == s@.skip(i + 1));
            proof {
                lemma_prepend_cons(out@, c, unescape_body(s@.skip(i + 1)));
            }
            out.push(c);
            i += 1;
        } else {
            if i + 1 >= s.len() {
                return None;
            }
            let e = s[i + 1];
            assert(rest[1] == e);
            assert(rest.skip(2) == s@.skip(i + 2));
            let simple: Option<char> = if e == 'n' {
                Some('\n')
            } else if e == 'r' {
                Some('\r')
            } else if e == 't' {
                Some('\t')
            } else if e == '\\' {
                Some('\\')
            } else if e == '0' {
                Some('\0')
            } else if e == '\'' {
                Some('\'')
            } else if e == '"' {
                Some('"')
            } else {
                None
            };
            if let Some(ch) = simple {
                proof {
                    lemma_prepend_cons(out@, ch, unescape_body(s@.skip(i + 2)));
                }
                out.push(ch);
                i += 2;
            } else if e == 'x' {
                if s.len() - i <= 3 || !('0' <= s[i + 2] && s[i + 2] <= '7') {
                    proof {
                        if rest.len() >= 4 {
                            assert(rest[2] == s@[i + 2]);
                        }
                    }
                    return None;
                }
                assert(rest[2] == s@[i + 2] && rest[3] == s@[i + 3]);
                match hex_of(s[i + 3]) {
                    Some(h) => {
                        let hi = digit_of(s[i + 2]);
                        let ch = ascii_char(hi * 16 + h);
                        assert(rest.skip(4) == s@.skip(i + 4));
                        proof {
                            lemma_prepend_cons(out@, ch, unescape_body(s@.skip(i + 4)));
                        }
                        out.push(ch);
                        i += 4;
                    },
                    None => {
                        return None;
                    },
                }
            } else if e == 'u' {
                if s.len() - i <= 2 || s[i + 2] != '{' {
                    proof {
                        if rest.len() >= 3 {
                            assert(rest[2] == s@[i + 2]);
                        }
                    }
                    return None;
                }
                assert(rest[2] == s@[i + 2]);
                assert(rest.skip(2) == s@.skip(i + 2));
                match read_brace(&s, i + 2) {
                    Some((val, end)) => match char_of(val) {
                        Some(ch) => {
                            assert(rest.skip(2 + (end - (i + 2))) == s@.skip(end as int));
                            proof {
                                lemma_prepend_cons(out@, ch, unescape_body(s@.skip(end as int)));
                            }
                            out.push(ch);
                            i = end;
                        },
                        None => {
                            return None;
                        },
                    },
                    None => {
                        return None;
                    },
                }
            } else if e == '\n' {
                let mut j: usize = i + 2;
                assert(s@.skip(i + 2).skip(0) == s@.skip(i + 2));
                while j < s.len() && (s[j] == ' ' || s[j] == '\t' || s[j] == '\n' || s[j] == '\r')
                    invariant
                        i + 2 <= j <= s.len(),
                        blank_prefix(s@.skip(i + 2)) == (j - (i + 2)) + blank_prefix(
                            s@.skip(j as int),
                        ),
                    decreases s.len() - j,
                {
                    assert(s@.skip(j as int)[0] == s@[j as int]);
                    assert(s@.skip(j as int).drop_first() == s@.skip(j + 1));
                    j += 1;
                }
                proof {
                    if j < s.len() {
                        assert(s@.skip(j as int)[0] == s@[j as int]);
                    }
                    assert(blank_prefix(s@.skip(j as int)) == 0);
                    assert(rest.skip(2 + blank_prefix(rest.skip(2)) as int) == s@.skip(j as int));
                }
                i = j;
            } else {
                return None;
            }
        }
    }
    assert(s@.skip(i as int) == Seq::<char>::empty());
    assert(out@ + Seq::<char>::empty() == out@);
    Some(out)
}

/// The text that `s`, the body of a Rust string literal, denotes; see `unescape`.
pub fn unescape_str(s: &str) -> (r: Option<String>)
    ensures
        r.deep_view() == unescape(s@),
{
    let v = chars_of(s);
    match unescape_chars(&v) {
        Some(t) => Some(crate::text::string_of(&t)),
        None => None,
    }
}

} // verus!
