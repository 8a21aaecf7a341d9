//! Logos: the colors that `$1`..`$9` select in the logo's text, and the
//! padding that gives every line of a logo the same width.
use vstd::prelude::*;
use vstd::utf8::encode_utf8;
use crate::color::{color_code, parse_x1b, ColorError};
use crate::display::{measure_width, text_width};
use crate::text::{
    chars_of, extend, extend_str, lines, lines_of, push_repeat, repeat, string_of, views,
};

verus! {

/// How the lines of a logo are padded: `left` copies of `fill` before each
/// line, copies after it up to the widest line plus `right`, and, where
/// `replace_spaces_with_char`, every space of the logo replaced by `fill`.
pub struct PaddingConfig {
    pub left: usize,
    pub right: usize,
    pub fill: String,
    pub replace_spaces_with_char: bool,
}

/// The colors of a logo, as the bytes of their texts in the configuration.
pub open spec fn color_bytes(colors: Seq<String>) -> Seq<Seq<u8>> {
    colors.map_values(|c: String| encode_utf8(c@))
}

/// `Ok(pre + r)` for `Ok(r)`, or the error.
pub open spec fn prepend(pre: Seq<char>, r: Result<Seq<char>, ColorError>) -> Result<
    Seq<char>,
    ColorError,
> {
    match r {
        Ok(t) => Ok(pre + t),
        Err(e) => Err(e),
    }
}

/// The text of a logo with its color marks replaced: a `$` followed by a digit
/// `d` becomes the escape sequence of color `d` (of the first color for `0`),
/// or a bare `$` when the logo has fewer colors; the first color that is not
/// valid makes the whole logo fail.
pub open spec fn colorize(t: Seq<char>, colors: Seq<Seq<u8>>) -> Result<Seq<char>, ColorError>
    decreases t.len(),
{
    if t.len() == 0 {
        Ok(seq![])
    } else if t[0] == '$' && t.len() >= 2 && '0' <= t[1] && t[1] <= '9' {
        let d = (t[1] as int) - ('0' as int);
        let idx = if d >= 1 {
            d - 1
        } else {
            0
        };
        if idx < colors.len() {
            match color_code(colors[idx]) {
                Ok(code) => prepend(code, colorize(t.skip(2), colors)),
                Err(e) => Err(e),
            }
        } else {
            prepend(seq!['$'], colorize(t.skip(2), colors))
        }
    } else {
        prepend(seq![t[0]], colorize(t.drop_first(), colors))
    }
}

fn digit_index(c: char) -> (i: usize)
    requires
        '0' <= c <= '9',
    ensures
        i == (if (c as int) - ('0' as int) >= 1 {
            (c as int) - ('0' as int) - 1
        } else {
            0
        }),
{
    match c {
        '0' | '1' => 0,
        '2' => 1,
        '3' => 2,
        '4' => 3,
        '5' => 4,
        '6' => 5,
        '7' => 6,
        '8' => 7,
        _ => 8,
    }
}

/// Whether `t` starts with a color mark, `$` and a digit.
pub open spec fn starts_with_mark(t: Seq<char>) -> bool {
    t.len() >= 2 && t[0] == '$' && '0' <= t[1] && t[1] <= '9'
}

/// The index of the color that the mark at the start of `t` selects.
pub open spec fn mark_index(t: Seq<char>) -> int {
    let d = (t[1] as int) - ('0' as int);
    if d >= 1 {
        d - 1
    } else {
        0
    }
}

proof fn lemma_colorize_mark(t: Seq<char>, cb: Seq<Seq<u8>>)
    requires
        starts_with_mark(t),
    ensures
        mark_index(t) < cb.len() ==> colorize(t, cb) == match color_code(cb[mark_index(t)]) {
            Ok(code) => prepend(code, colorize(t.skip(2), cb)),
            Err(e) => Err(e),
        },
        mark_index(t) >= cb.len() ==> colorize(t, cb) == prepend(
            seq!['$'],
            colorize(t.skip(2), cb),
        ),
{
}

proof fn lemma_colorize_plain(t: Seq<char>, cb: Seq<Seq<u8>>)
    requires
        t.len() >= 1,
        !starts_with_mark(t),
    ensures
        colorize(t, cb) == prepend(seq![t[0]], colorize(t.drop_first(), cb)),
{
}

proof fn lemma_prepend_assoc(a: Seq<char>, b: Seq<char>, r: Result<Seq<char>, ColorError>)
    ensures
        prepend(a, prepend(b, r)) == prepend(a + b, r),
{
    if let Ok(t) = r {
        assert(a + (b + t) == (a + b) + t);
    }
}

/// Replaces the color marks of a logo's text; see `colorize`.
pub fn colorize_logo(text: &str, colors: &Vec<String>) -> (r: Result<String, ColorError>)
    ensures
        match r {
            Ok(o) => colorize(text@, color_bytes(colors@)) == Ok::<Seq<char>, ColorError>(o@),
            Err(e) => colorize(text@, color_bytes(colors@)) == Err::<Seq<char>, ColorError>(e),
        },
{
    let t = chars_of(text);
    let ghost cb = color_bytes(colors@);
    let mut out: Vec<char> = Vec::new();
    let mut i: usize = 0;
    assert(t@.skip(0) == t@);
    assert(out@ + seq![] == out@);
    while i < t.len()
        invariant
            0 <= i <= t.len(),
            t@ == text@,
            cb == color_bytes(colors@),
            colorize(text@, cb) == prepend(out@, colorize(t@.skip(i as int), cb)),
        decreases t.len() - i,
    {
        let ghost rest = t@.skip(i as int);
        assert(rest[0] == t@[i as int]);
        if t[i] == '$' && i + 1 < t.len() && '0' <= t[i + 1] && t[i + 1] <= '9' {
            assert(rest[1] == t@[i + 1]);
            assert(rest.skip(2) == t@.skip(i + 2));
            proof {
                lemma_colorize_mark(rest, cb);
            }
            let idx = digit_index(t[i + 1]);
            assert(idx == mark_index(rest));
            if idx < colors.len() {
                assert(cb[idx as int] == encode_utf8(colors@[idx as int]@));
                match parse_x1b(colors[idx].as_str()) {
                    Ok(code) => {
                        proof {
                            lemma_prepend_assoc(out@, code@, colorize(t@.skip(i + 2), cb));
                        }
                        let ghost o = out@;
                        extend_str(&mut out, code.as_str());
                        assert(color_code(cb[idx as int]) == Ok::<Seq<char>, ColorError>(code@));
                        assert(colorize(rest, cb) == prepend(code@, colorize(t@.skip(i + 2), cb)));
                        assert(colorize(text@, cb) == prepend(o, colorize(rest, cb)));
                        assert(colorize(text@, cb) == prepend(out@, colorize(t@.skip(i + 2), cb)));
                    },
                    Err(e) => {
                        return Err(e);
                    },
                }
            } else {
                proof {
                    lemma_prepend_assoc(out@, seq!['$'], colorize(t@.skip(i + 2), cb));
                }
                let ghost o = out@;
                out.push('$');
                assert(out@ == o + seq!['$']);
                assert(colorize(text@, cb) == prepend(out@, colorize(t@.skip(i + 2), cb)));
            }
            i += 2;
        } else {
            assert(rest.drop_first() == t@.skip(i + 1));
            assert(!starts_with_mark(rest)) by {
                if rest.len() >= 2 {
                    assert(rest[1] == t@[i + 1]);
                }
            }
            proof {
                lemma_colorize_plain(rest, cb);
                lemma_prepend_assoc(out@, seq![t@[i as int]], colorize(t@.skip(i + 1), cb));
            }
            let ghost o = out@;
            out.push(t[i]);
            assert(out@ == o + seq![t@[i as int]]);
            assert(colorize(text@, cb) == prepend(out@, colorize(t@.skip(i + 1), cb)));
            i += 1;
        }
    }
    assert(t@.skip(i as int) == Seq::<char>::empty());
    assert(out@ + seq![] == out@);
    Ok(string_of(&out))
}

/// The largest of `ws`, or 0 for none.
pub open spec fn max_of(ws: Seq<usize>) -> usize
    decreases ws.len(),
{
    if ws.len() == 0 {
        0
    } else {
        let m = max_of(ws.drop_last());
        if ws.last() > m {
            ws.last()
        } else {
            m
        }
    }
}

/// The width of each of the lines `ls`.
pub open spec fn widths(ls: Seq<Seq<char>>) -> Seq<usize> {
    ls.map_values(|l: Seq<char>| text_width(l))
}

/// `l` with every space replaced by `fill`.
pub open spec fn fill_spaces(l: Seq<char>, fill: Seq<char>) -> Seq<char>
    decreases l.len(),
{
    if l.len() == 0 {
        seq![]
    } else {
        fill_spaces(l.drop_last(), fill) + if l.last() == ' ' {
            fill
        } else {
            seq![l.last()]
        }
    }
}

/// One padded line of a logo, of width `width`, ended by a newline written
/// as the escape `\n` (the padded logo is the body of a string literal). The
/// count of fill after the line is `target - width`, wrapping at the size of
/// `usize`.
pub open spec fn padded_line(l: Seq<char>, width: usize, target: usize, pad: PaddingConfig) -> Seq<
    char,
> {
    repeat(pad.fill@, pad.left as nat) + (if pad.replace_spaces_with_char {
        fill_spaces(l, pad.fill@)
    } else {
        l
    }) + seq!['\x1b', '[', '0', 'm'] + repeat(pad.fill@, target.wrapping_sub(width) as nat) + seq![
        '\\',
        'n',
    ]
}

/// The padded lines `ls` of widths `ws`, one after another.
pub open spec fn padded_lines(
    ls: Seq<Seq<char>>,
    ws: Seq<usize>,
    target: usize,
    pad: PaddingConfig,
) -> Seq<char>
    decreases ls.len(),
{
    if ls.len() == 0 || ws.len() == 0 {
        seq![]
    } else {
        padded_lines(ls.drop_last(), ws.drop_last(), target, pad) + padded_line(
            ls.last(),
            ws.last(),
            target,
            pad,
        )
    }
}

/// The lines of the logo `t`, of widths `ws`, each padded to the widest plus
/// `right` (wrapping at the size of `usize`).
pub open spec fn padded_with(t: Seq<char>, ws: Seq<usize>, pad: PaddingConfig) -> Seq<char> {
    padded_lines(lines(t), ws, max_of(ws).wrapping_add(pad.right), pad)
}

/// The logo `t` with every line padded, by the lines' widths on a terminal.
pub open spec fn padded(t: Seq<char>, pad: PaddingConfig) -> Seq<char> {
    padded_with(t, widths(lines(t)), pad)
}

fn push_fill_spaces(v: &mut Vec<char>, l: &Vec<char>, fill: &Vec<char>)
    ensures
        final(v)@ == old(v)@ + fill_spaces(l@, fill@),
{
    let mut i: usize = 0;
    while i < l.len()
        invariant
            0 <= i <= l.len(),
            v@ == old(v)@ + fill_spaces(l@.take(i as int), fill@),
        decreases l.len() - i,
    {
        assert(l@.take(i + 1).drop_last() == l@.take(i as int));
        if l[i] == ' ' {
            extend(v, fill);
        } else {
            v.push(l[i]);
        }
        i += 1;
    }
    assert(l@.take(l.len() as int) == l@);
}

/// Pads the lines of the logo `text`, whose widths are `line_widths`; see `padded_with`.
pub fn pad_lines(text: &str, line_widths: &Vec<usize>, pad: &PaddingConfig) -> (out: String)
    requires
        line_widths@.len() == lines(text@).len(),
    ensures
        out@ == padded_with(text@, line_widths@, *pad),
{
    let t = chars_of(text);
    let ls = lines_of(&t);
    let ghost lv = views(ls@);
    let ghost ws = line_widths@;
    let fill = chars_of(pad.fill.as_str());
    let mut m: usize = 0;
    let mut i: usize = 0;
    while i < line_widths.len()
        invariant
            0 <= i <= line_widths.len(),
            ws == line_widths@,
            m == max_of(ws.take(i as int)),
        decreases line_widths.len() - i,
    {
        assert(ws.take(i + 1).drop_last() == ws.take(i as int));
        if line_widths[i] > m {
            m = line_widths[i];
        }
        i += 1;
    }
    assert(ws.take(ws.len() as int) == ws);
    let target = m.wrapping_add(pad.right);
    let mut out: Vec<char> = Vec::new();
    let mut j: usize = 0;
    while j < ls.len()
        invariant
            0 <= j <= ls.len(),
            lv == views(ls@),
            lv == lines(text@),
            ws == line_widths@,
            ws.len() == lv.len(),
            target == max_of(ws).wrapping_add(pad.right),
            fill@ == pad.fill@,
            out@ == padded_lines(lv.take(j as int), ws.take(j as int), target, *pad),
        decreases ls.len() - j,
    {
        assert(lv.take(j + 1).drop_last() == lv.take(j as int));
        assert(ws.take(j + 1).drop_last() == ws.take(j as int));
        assert(lv.take(j + 1).last() == ls@[j as int]@);
        assert(ws.take(j + 1).last() == ws[j as int]);
        let ghost before = out@;
        push_repeat(&mut out, &fill, pad.left);
        if pad.replace_spaces_with_char {
            push_fill_spaces(&mut out, &ls[j], &fill);
        } else {
            extend(&mut out, &ls[j]);
        }
        out.push('\x1b');
        out.push('[');
        out.push('0');
        out.push('m');
        push_repeat(&mut out, &fill, target.wrapping_sub(line_widths[j]));
        out.push('\\');
        out.push('n');
        assert(out@ == before + padded_line(ls@[j as int]@, ws[j as int], target, *pad));
        j += 1;
    }
    assert(lv.take(ls.len() as int) == lv);
    assert(ws.take(ls.len() as int) == ws);
    string_of(&out)
}

/// Pads every line of the logo `text` to the width of its widest line plus
/// the right padding, as measured on a terminal; see `padded`. The result is
/// the body of a string literal: each line ends with the escape `\n`, and the
/// text of the logo is read with its own escapes.
pub fn pad_logo(text: &str, pad: &PaddingConfig) -> (out: String)
    ensures
        out@ == padded(text@, *pad),
{
    let t = chars_of(text);
    let ls = lines_of(&t);
    let ghost lv = views(ls@);
    let mut ws: Vec<usize> = Vec::new();
    let mut i: usize = 0;
    while i < ls.len()
        invariant
            0 <= i <= ls.len(),
            lv == views(ls@),
            ws@ == widths(lv).take(i as int),
        decreases ls.len() - i,
    {
        let line = string_of(&ls[i]);
        let w = measure_width(line.as_str());
        ws.push(w);
        assert(widths(lv).take(i + 1) =~= widths(lv).take(i as int).push(widths(lv)[i as int]));
        i += 1;
    }
    assert(widths(lv).take(ls.len() as int) =~= widths(lv));
    pad_lines(text, &ws, pad)
}

} // verus!
