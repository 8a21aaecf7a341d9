//! The values of the modules, computed from what the system reported: the
//! environment, `/etc/os-release`, `uname`, `/proc/cpuinfo`, `sysinfo` and
//! `/proc/mounts`.
use vstd::prelude::*;
use crate::text::{
    byte_len, chars_of, decimal, equals_str, extend, extend_str, has_prefix, lines, lines_of,
    push_decimal, repeat, same_chars, split, split_of, starts_with, string_of, sub_chars, trim,
    trim_chars, trim_quotes, utf8_width, views, words, words_of,
};
use crate::config::{Palette, Thresholds};
use crate::display::{binary_size, format_binary_size};

verus! {

/// The escape sequence that resets all attributes.
pub open spec fn reset() -> Seq<char> {
    seq!['\x1b', '[', '0', 'm']
}

fn push_reset(v: &mut Vec<char>)
    ensures
        final(v)@ == old(v)@ + reset(),
{
    v.push('\x1b');
    v.push('[');
    v.push('0');
    v.push('m');
}

// ----------------------------------------------------------------------
// title
// ----------------------------------------------------------------------

/// As many `-` as `s` has bytes.
pub open spec fn dashes(s: Seq<char>) -> Seq<char> {
    repeat(seq!['-'], byte_len(s))
}

/// The title line `user@host` in the title color, and the line of dashes under it.
pub open spec fn title_lines(user: Option<Seq<char>>, host: Option<Seq<char>>, color: Seq<char>) -> (
    Option<Seq<char>>,
    Option<Seq<char>>,
) {
    match (user, host) {
        (Some(u), Some(h)) => if u.len() == 0 || h.len() == 0 {
            (None, None)
        } else {
            let t = u + seq!['@'] + h;
            (Some(color + t), Some(reset() + dashes(t)))
        },
        _ => (None, None),
    }
}

proof fn lemma_repeat_add(s: Seq<char>, a: nat, b: nat)
    ensures
        repeat(s, a + b) == repeat(s, a) + repeat(s, b),
    decreases b,
{
    if b > 0 {
        lemma_repeat_add(s, a, (b - 1) as nat);
        assert(repeat(s, a + b) == repeat(s, (a + b - 1) as nat) + s);
    } else {
        assert(repeat(s, a) + repeat(s, 0) == repeat(s, a));
    }
}

/// Appends as many `-` as `t` has bytes.
fn push_dashes(v: &mut Vec<char>, t: &Vec<char>)
    ensures
        final(v)@ == old(v)@ + dashes(t@),
{
    let mut i: usize = 0;
    while i < t.len()
        invariant
            0 <= i <= t.len(),
            v@ == old(v)@ + dashes(t@.take(i as int)),
        decreases t.len() - i,
    {
        assert(t@.take(i + 1).drop_last() == t@.take(i as int));
        let ghost before = v@;
        let u = t[i] as u32;
        let w: usize = if u < 0x80 {
            1
        } else if u < 0x800 {
            2
        } else if u < 0x10000 {
            3
        } else {
            4
        };
        let mut k: usize = 0;
        while k < w
            invariant
                0 <= k <= w,
                v@ == before + repeat(seq!['-'], k as nat),
            decreases w - k,
        {
            v.push('-');
            k += 1;
        }
        proof {
            assert(w == utf8_width(t@[i as int]));
            lemma_repeat_add(seq!['-'], byte_len(t@.take(i as int)), w as nat);
        }
        i += 1;
    }
    assert(t@.take(t.len() as int) == t@);
}

/// The title: `user@hostname` in the title color, and under it as many dashes
/// as that text has bytes, after a reset. Nothing when the user or the host
/// name is unknown or empty.
pub fn title(user: Option<String>, hostname: Option<String>, title_color: &str) -> (r: (
    Option<String>,
    Option<String>,
))
    ensures
        (r.0.deep_view(), r.1.deep_view()) == title_lines(
            user.deep_view(),
            hostname.deep_view(),
            title_color@,
        ),
{
    match (user, hostname) {
        (Some(u), Some(h)) => {
            let uv = chars_of(u.as_str());
            let hv = chars_of(h.as_str());
            if uv.len() == 0 || hv.len() == 0 {
                return (None, None);
            }
            let mut t: Vec<char> = uv;
            t.push('@');
            extend(&mut t, &hv);
            assert(t@ == u@ + seq!['@'] + h@);
            let mut first: Vec<char> = chars_of(title_color);
            extend(&mut first, &t);
            let mut second: Vec<char> = Vec::new();
            push_reset(&mut second);
            push_dashes(&mut second, &t);
            (Some(string_of(&first)), Some(string_of(&second)))
        },
        _ => (None, None),
    }
}

// ----------------------------------------------------------------------
// os
// ----------------------------------------------------------------------

/// The pretty name, the id and the id-like of an os-release file, as far as read.
pub type OsFields = (Option<Seq<char>>, Option<Seq<char>>, Option<Seq<char>>);

/// The fields after reading one line: a `PRETTY_NAME=`, `ID=` or `ID_LIKE=`
/// line sets its field to the value without surrounding quotes.
pub open spec fn os_step(st: OsFields, line: Seq<char>) -> OsFields {
    if starts_with(line, "PRETTY_NAME="@) {
        (Some(trim_quotes(line.skip("PRETTY_NAME="@.len() as int))), st.1, st.2)
    } else if starts_with(line, "ID="@) {
        (st.0, Some(trim_quotes(line.skip("ID="@.len() as int))), st.2)
    } else if starts_with(line, "ID_LIKE="@) {
        (st.0, st.1, Some(trim_quotes(line.skip("ID_LIKE="@.len() as int))))
    } else {
        st
    }
}

/// Whether all three fields are known.
pub open spec fn os_complete(st: OsFields) -> bool {
    st.0 is Some && st.1 is Some && st.2 is Some
}

/// The fields after reading `ls` in order, stopping after the line that makes
/// all three known.
pub open spec fn os_scan(ls: Seq<Seq<char>>, st: OsFields) -> OsFields
    decreases ls.len(),
{
    if ls.len() == 0 {
        st
    } else {
        let next = os_step(st, ls[0]);
        if os_complete(next) {
            next
        } else {
            os_scan(ls.drop_first(), next)
        }
    }
}

fn field_after(line: &Vec<char>, prefix: &str) -> (out: Option<String>)
    ensures
        match out {
            Some(v) => starts_with(line@, prefix@) && v@ == trim_quotes(
                line@.skip(prefix@.len() as int),
            ),
            None => !starts_with(line@, prefix@),
        },
{
    if has_prefix(line, prefix) {
        let n = chars_of(prefix).len();
        let rest = sub_chars(line, n, line.len());
        assert(rest@ == line@.skip(prefix@.len() as int));
        let t = trim_chars(&rest, true);
        Some(string_of(&t))
    } else {
        None
    }
}

/// Reads an os-release file: the values of `PRETTY_NAME`, `ID` and `ID_LIKE`,
/// without surrounding quotes. A later line overrides an earlier one, until
/// the line at which all three are known.
pub fn distro(content: &str) -> (r: (Option<String>, Option<String>, Option<String>))
    ensures
        (r.0.deep_view(), r.1.deep_view(), r.2.deep_view()) == os_scan(
            lines(content@),
            (None, None, None),
        ),
{
    let v = chars_of(content);
    let ls = lines_of(&v);
    let mut pretty: Option<String> = None;
    let mut id: Option<String> = None;
    let mut id_like: Option<String> = None;
    let mut i: usize = 0;
    assert(views(ls@).skip(0) == views(ls@));
    while i < ls.len()
        invariant
            0 <= i <= ls.len(),
            views(ls@) == lines(content@),
            os_scan(lines(content@), (None, None, None)) == os_scan(
                views(ls@).skip(i as int),
                (pretty.deep_view(), id.deep_view(), id_like.deep_view()),
            ),
        decreases ls.len() - i,
    {
        let ghost st = (pretty.deep_view(), id.deep_view(), id_like.deep_view());
        let ghost rest = views(ls@).skip(i as int);
        assert(rest[0] == ls@[i as int]@);
        assert(rest.drop_first() == views(ls@).skip(i + 1));
        let line = &ls[i];
        if let Some(p) = field_after(line, "PRETTY_NAME=") {
            pretty = Some(p);
        } else if let Some(d) = field_after(line, "ID=") {
            id = Some(d);
        } else if let Some(d) = field_after(line, "ID_LIKE=") {
            id_like = Some(d);
        }
        assert((pretty.deep_view(), id.deep_view(), id_like.deep_view()) == os_step(st, rest[0]));
        if pretty.is_some() && id.is_some() && id_like.is_some() {
            return (pretty, id, id_like);
        }
        i += 1;
    }
    (pretty, id, id_like)
}

/// The value of the field `prefix` in the lines `ls`: the rest of the first
/// line that starts with `prefix`, without surrounding quotes; nothing when no
/// line does.
pub open spec fn field_value(ls: Seq<Seq<char>>, prefix: Seq<char>) -> Option<Seq<char>>
    decreases ls.len(),
{
    if ls.len() == 0 {
        None
    } else if starts_with(ls[0], prefix) {
        Some(trim_quotes(ls[0].skip(prefix.len() as int)))
    } else {
        field_value(ls.drop_first(), prefix)
    }
}

/// Whether at most one of the lines `ls` starts with `prefix`.
pub open spec fn at_most_once(ls: Seq<Seq<char>>, prefix: Seq<char>) -> bool {
    forall|i: int, j: int|
        0 <= i < ls.len() && 0 <= j < ls.len() && starts_with(#[trigger] ls[i], prefix)
            && starts_with(#[trigger] ls[j], prefix) ==> i == j
}

/// Whether no line of `ls` starts with `prefix`.
pub open spec fn nowhere(ls: Seq<Seq<char>>, prefix: Seq<char>) -> bool {
    forall|i: int| 0 <= i < ls.len() ==> !starts_with(#[trigger] ls[i], prefix)
}

/// `b` where it is known, else `a`.
pub open spec fn known_or(a: Option<Seq<char>>, b: Option<Seq<char>>) -> Option<Seq<char>> {
    if b is Some {
        b
    } else {
        a
    }
}

proof fn lemma_field_nowhere(ls: Seq<Seq<char>>, prefix: Seq<char>)
    requires
        nowhere(ls, prefix),
    ensures
        field_value(ls, prefix) is None,
    decreases ls.len(),
{
    if ls.len() > 0 {
        assert(!starts_with(ls[0], prefix));
        assert forall|i: int| 0 <= i < ls.drop_first().len() implies !starts_with(
            #[trigger] ls.drop_first()[i],
            prefix,
        ) by {
            assert(ls.drop_first()[i] == ls[i + 1]);
        }
        lemma_field_nowhere(ls.drop_first(), prefix);
    }
}

proof fn lemma_prefixes_apart(l: Seq<char>)
    ensures
        starts_with(l, "PRETTY_NAME="@) ==> !starts_with(l, "ID="@) && !starts_with(l, "ID_LIKE="@),
        starts_with(l, "ID="@) ==> !starts_with(l, "ID_LIKE="@),
{
    reveal_strlit("PRETTY_NAME=");
    reveal_strlit("ID=");
    reveal_strlit("ID_LIKE=");
    if starts_with(l, "PRETTY_NAME="@) {
        assert(l[0] == l.take(12)[0]);
    }
    if starts_with(l, "ID="@) {
        assert(l[2] == l.take(3)[2]);
        if starts_with(l, "ID_LIKE="@) {
            assert(l[2] == l.take(8)[2]);
        }
    }
    if starts_with(l, "PRETTY_NAME="@) && starts_with(l, "ID_LIKE="@) {
        assert(l[0] == l.take(8)[0]);
    }
}

proof fn lemma_tail_once(ls: Seq<Seq<char>>, prefix: Seq<char>)
    requires
        ls.len() > 0,
        at_most_once(ls, prefix),
    ensures
        at_most_once(ls.drop_first(), prefix),
        starts_with(ls[0], prefix) ==> nowhere(ls.drop_first(), prefix),
        nowhere(ls, prefix) ==> nowhere(ls.drop_first(), prefix),
{
    let t = ls.drop_first();
    assert forall|i: int, j: int|
        0 <= i < t.len() && 0 <= j < t.len() && starts_with(#[trigger] t[i], prefix) && starts_with(
            #[trigger] t[j],
            prefix,
        ) implies i == j by {
        assert(t[i] == ls[i + 1] && t[j] == ls[j + 1]);
    }
    assert forall|i: int| 0 <= i < t.len() && (starts_with(ls[0], prefix) || nowhere(ls, prefix))
        implies !starts_with(#[trigger] t[i], prefix) by {
        assert(t[i] == ls[i + 1]);
    }
}

proof fn lemma_os_scan_once(ls: Seq<Seq<char>>, st: OsFields)
    requires
        at_most_once(ls, "PRETTY_NAME="@),
        at_most_once(ls, "ID="@),
        at_most_once(ls, "ID_LIKE="@),
        st.0 is Some ==> nowhere(ls, "PRETTY_NAME="@),
        st.1 is Some ==> nowhere(ls, "ID="@),
        st.2 is Some ==> nowhere(ls, "ID_LIKE="@),
    ensures
        os_scan(ls, st) == (
            known_or(st.0, field_value(ls, "PRETTY_NAME="@)),
            known_or(st.1, field_value(ls, "ID="@)),
            known_or(st.2, field_value(ls, "ID_LIKE="@)),
        ),
    decreases ls.len(),
{
    let p0 = "PRETTY_NAME="@;
    let p1 = "ID="@;
    let p2 = "ID_LIKE="@;
    if ls.len() == 0 {
    } else {
        let t = ls.drop_first();
        let next = os_step(st, ls[0]);
        lemma_prefixes_apart(ls[0]);
        lemma_tail_once(ls, p0);
        lemma_tail_once(ls, p1);
        lemma_tail_once(ls, p2);
        if st.0 is Some {
            lemma_field_nowhere(ls, p0);
            lemma_field_nowhere(t, p0);
        }
        if st.1 is Some {
            lemma_field_nowhere(ls, p1);
            lemma_field_nowhere(t, p1);
        }
        if st.2 is Some {
            lemma_field_nowhere(ls, p2);
            lemma_field_nowhere(t, p2);
        }
        if starts_with(ls[0], p0) {
            lemma_field_nowhere(t, p0);
        }
        if starts_with(ls[0], p1) {
            lemma_field_nowhere(t, p1);
        }
        if starts_with(ls[0], p2) {
            lemma_field_nowhere(t, p2);
        }
        if !os_complete(next) {
            lemma_os_scan_once(t, next);
        }
    }
}

/// When each of `PRETTY_NAME=`, `ID=` and `ID_LIKE=` starts at most one line
/// of an os-release file, `distro` gives for each the value of its line,
/// without surrounding quotes, and nothing where no line has it.
pub proof fn distro_reads_each_field(content: Seq<char>)
    requires
        at_most_once(lines(content), "PRETTY_NAME="@),
        at_most_once(lines(content), "ID="@),
        at_most_once(lines(content), "ID_LIKE="@),
    ensures
        os_scan(lines(content), (None, None, None)) == (
            field_value(lines(content), "PRETTY_NAME="@),
            field_value(lines(content), "ID="@),
            field_value(lines(content), "ID_LIKE="@),
        ),
{
    lemma_os_scan_once(lines(content), (None, None, None));
}

// ----------------------------------------------------------------------
// kernel, host, shell, desktop, cursor, cpu, locale
// ----------------------------------------------------------------------

/// The kernel: its name and release, separated by a space; nothing when
/// either is unknown.
pub fn kernel(sysname: Option<String>, release: Option<String>) -> (r: Option<String>)
    ensures
        r.deep_view() == match (sysname.deep_view(), release.deep_view()) {
            (Some(s), Some(v)) => Some(s + seq![' '] + v),
            _ => None::<Seq<char>>,
        },
{
    match (sysname, release) {
        (Some(s), Some(v)) => {
            let mut out = chars_of(s.as_str());
            out.push(' ');
            extend_str(&mut out, v.as_str());
            Some(string_of(&out))
        },
        _ => None,
    }
}

/// The host: the product name without surrounding whitespace; nothing when
/// it could not be read.
pub fn host(product_name: Option<String>) -> (r: Option<String>)
    ensures
        r.deep_view() == match product_name.deep_view() {
            Some(s) => Some(trim(s)),
            None => None::<Seq<char>>,
        },
{
    match product_name {
        Some(s) => {
            let v = chars_of(s.as_str());
            let t = trim_chars(&v, false);
            Some(string_of(&t))
        },
        None => None,
    }
}

/// The last component of `ps` that is neither empty nor `.`.
pub open spec fn last_component(ps: Seq<Seq<char>>) -> Option<Seq<char>>
    decreases ps.len(),
{
    if ps.len() == 0 {
        None
    } else if ps.last().len() == 0 || ps.last() == seq!['.'] {
        last_component(ps.drop_last())
    } else {
        Some(ps.last())
    }
}

/// The final component of the path `p`, as `Path::file_name` gives it: `/`
/// separates components, empty and `.` components do not count, and there is
/// none when the path ends in `..` or has no component.
pub open spec fn file_name(p: Seq<char>) -> Option<Seq<char>> {
    match last_component(split(p, '/')) {
        Some(c) => if c == seq!['.', '.'] {
            None
        } else {
            Some(c)
        },
        None => None,
    }
}

/// The shell: the file name of the shell's path; nothing when it is unknown.
pub fn shell(path: Option<String>) -> (r: Option<String>)
    ensures
        r.deep_view() == match path.deep_view() {
            Some(p) => file_name(p),
            None => None::<Seq<char>>,
        },
{
    match path {
        Some(p) => file_name_of(p.as_str()),
        None => None,
    }
}

fn file_name_of(p: &str) -> (r: Option<String>)
    ensures
        r.deep_view() == file_name(p@),
{
    let v = chars_of(p);
    let parts = split_of(&v, '/');
    let mut i: usize = parts.len();
    assert(views(parts@).take(i as int) == views(parts@));
    while i > 0
        invariant
            0 <= i <= parts.len(),
            last_component(split(v@, '/')) == last_component(views(parts@).take(i as int)),
            views(parts@) == split(v@, '/'),
            v@ == p@,
        decreases i,
    {
        let ghost pre = views(parts@).take(i as int);
        assert(pre.last() == parts@[i - 1]@);
        assert(pre.drop_last() == views(parts@).take(i - 1));
        let c = &parts[i - 1];
        let dot = c.len() == 1 && c[0] == '.';
        proof {
            if dot {
                assert(c@ =~= seq!['.']);
            }
            if c@ == seq!['.'] {
                assert(c@[0] == '.');
            }
        }
        if c.len() == 0 || dot {
            i -= 1;
        } else {
            assert(last_component(pre) == Some(c@));
            if c.len() == 2 && c[0] == '.' && c[1] == '.' {
                assert(c@ == seq!['.', '.']);
                return None;
            }
            assert(c@ != seq!['.', '.']) by {
                if c@ == seq!['.', '.'] {
                    assert(c@[0] == '.' && c@[1] == '.');
                }
            }
            return Some(string_of(c));
        }
    }
    None
}

/// The desktop: the last `:`-separated entry of the current desktop, or else
/// the session desktop.
pub fn de(current_desktop: Option<String>, session_desktop: Option<String>) -> (r: Option<String>)
    ensures
        r.deep_view() == match current_desktop.deep_view() {
            Some(c) => Some(split(c, ':').last()),
            None => session_desktop.deep_view(),
        },
{
    match current_desktop {
        Some(c) => {
            let v = chars_of(c.as_str());
            let parts = split_of(&v, ':');
            assert(parts@.len() == views(parts@).len());
            let last = &parts[parts.len() - 1];
            assert(last@ == views(parts@).last());
            Some(string_of(last))
        },
        None => session_desktop,
    }
}

/// `theme` followed by ` (` the size `px)`.
pub open spec fn with_size(theme: Seq<char>, size: Seq<char>) -> Seq<char> {
    theme + seq![' ', '('] + size + seq!['p', 'x', ')']
}

fn sized(theme: String, size: Option<String>) -> (r: String)
    ensures
        r@ == match size.deep_view() {
            Some(s) => with_size(theme@, s),
            None => theme@,
        },
{
    match size {
        Some(s) => {
            let mut out = chars_of(theme.as_str());
            out.push(' ');
            out.push('(');
            extend_str(&mut out, s.as_str());
            out.push('p');
            out.push('x');
            out.push(')');
            string_of(&out)
        },
        None => theme,
    }
}

/// The cursor: the X cursor theme, or else the Hyprland cursor theme, each
/// with its size when that is known.
pub fn cursor(
    xcursor_theme: Option<String>,
    xcursor_size: Option<String>,
    hyprcursor_theme: Option<String>,
    hyprcursor_size: Option<String>,
) -> (r: Option<String>)
    ensures
        r.deep_view() == match (xcursor_theme.deep_view(), hyprcursor_theme.deep_view()) {
            (Some(x), _) => Some(
                match xcursor_size.deep_view() {
                    Some(s) => with_size(x, s),
                    None => x,
                },
            ),
            (None, Some(h)) => Some(
                match hyprcursor_size.deep_view() {
                    Some(s) => with_size(h, s),
                    None => h,
                },
            ),
            (None, None) => None::<Seq<char>>,
        },
{
    if let Some(x) = xcursor_theme {
        return Some(sized(x, xcursor_size));
    }
    if let Some(h) = hyprcursor_theme {
        return Some(sized(h, hyprcursor_size));
    }
    None
}

/// The index of the first `c` in `s`, if there is one.
pub open spec fn first_index(s: Seq<char>, c: char) -> Option<int>
    decreases s.len(),
{
    if s.len() == 0 {
        None
    } else if s[0] == c {
        Some(0)
    } else {
        match first_index(s.drop_first(), c) {
            Some(i) => Some(i + 1),
            None => None,
        }
    }
}

/// The first line of `ls` that starts with `model name`, if there is one.
pub open spec fn first_model_line(ls: Seq<Seq<char>>) -> Option<Seq<char>>
    decreases ls.len(),
{
    if ls.len() == 0 {
        None
    } else if starts_with(ls[0], "model name"@) {
        Some(ls[0])
    } else {
        first_model_line(ls.drop_first())
    }
}

/// The processor name in the text of `/proc/cpuinfo`.
pub open spec fn cpu_name(cpuinfo: Seq<char>) -> Option<Seq<char>> {
    match first_model_line(lines(cpuinfo)) {
        Some(l) => match first_index(l, ':') {
            Some(i) => Some(trim(l.skip(i + 1))),
            None => None,
        },
        None => None,
    }
}

fn colon_index(v: &Vec<char>) -> (r: Option<usize>)
    ensures
        match r {
            Some(i) => first_index(v@, ':') == Some(i as int) && i < v.len(),
            None => first_index(v@, ':') is None,
        },
{
    let mut i: usize = 0;
    assert(v@.skip(0) == v@);
    while i < v.len()
        invariant
            0 <= i <= v.len(),
            first_index(v@, ':') == match first_index(v@.skip(i as int), ':') {
                Some(k) => Some(k + i),
                None => None,
            },
        decreases v.len() - i,
    {
        assert(v@.skip(i as int)[0] == v@[i as int]);
        if v[i] == ':' {
            return Some(i);
        }
        assert(v@.skip(i as int).drop_first() == v@.skip(i + 1));
        i += 1;
    }
    None
}

/// The processor, as `/proc/cpuinfo` names it: on the first line that starts
/// with `model name`, what follows the first `:`, without surrounding
/// whitespace; nothing when there is no such line or it has no `:`.
pub fn cpu(cpuinfo: &str) -> (r: Option<String>)
    ensures
        r.deep_view() == cpu_name(cpuinfo@),
{
    let v = chars_of(cpuinfo);
    let ls = lines_of(&v);
    let mut i: usize = 0;
    assert(views(ls@).skip(0) == views(ls@));
    while i < ls.len()
        invariant
            0 <= i <= ls.len(),
            views(ls@) == lines(cpuinfo@),
            first_model_line(lines(cpuinfo@)) == first_model_line(views(ls@).skip(i as int)),
        decreases ls.len() - i,
    {
        let ghost rest = views(ls@).skip(i as int);
        assert(rest[0] == ls@[i as int]@);
        assert(rest.drop_first() == views(ls@).skip(i + 1));
        let line = &ls[i];
        if has_prefix(line, "model name") {
            return match colon_index(line) {
                Some(k) => {
                    let after = sub_chars(line, k + 1, line.len());
                    assert(after@ == line@.skip(k + 1));
                    let t = trim_chars(&after, false);
                    Some(string_of(&t))
                },
                None => None,
            };
        }
        i += 1;
    }
    None
}

/// The locale: `LC_ALL` when it is set, or else `LANG`.
pub fn locale(lc_all: Option<String>, lang: Option<String>) -> (r: Option<String>)
    ensures
        r.deep_view() == match lc_all.deep_view() {
            Some(v) => Some(v),
            None => lang.deep_view(),
        },
{
    match lc_all {
        Some(v) => Some(v),
        None => lang,
    }
}

// ----------------------------------------------------------------------
// uptime, memory and swap
// ----------------------------------------------------------------------

/// `s` if `n` is not 1, else nothing.
pub open spec fn plural(n: nat) -> Seq<char> {
    if n == 1 {
        seq![]
    } else {
        seq!['s']
    }
}

/// `n` followed by the unit `name`, in plural where `n` is not 1, and `, `.
pub open spec fn amount(n: nat, name: Seq<char>) -> Seq<char> {
    decimal(n) + name + plural(n) + seq![',', ' ']
}

/// The days, hours and minutes of an uptime, each followed by `, `: days and
/// hours only when not zero, minutes when not zero or when nothing precedes them.
pub open spec fn uptime_amounts(secs: nat) -> Seq<char> {
    let days = secs / 86400;
    let hours = (secs % 86400) / 3600;
    let minutes = (secs % 3600) / 60;
    let a = if days > 0 {
        amount(days, " day"@)
    } else {
        seq![]
    };
    let b = if hours > 0 {
        a + amount(hours, " hour"@)
    } else {
        a
    };
    if minutes > 0 || b.len() == 0 {
        b + amount(minutes, " min"@)
    } else {
        b
    }
}

/// Whether `s` ends with `, `.
pub open spec fn ends_with_comma(s: Seq<char>) -> bool {
    s.len() >= 2 && s[s.len() - 2] == ',' && s.last() == ' '
}

/// An uptime of `secs` seconds as the fetch shows it, such as `1 day, 2 hours, 5 mins`.
pub open spec fn uptime_text(secs: nat) -> Seq<char> {
    let a = uptime_amounts(secs);
    if ends_with_comma(a) {
        a.take(a.len() - 2)
    } else {
        a
    }
}

fn push_amount(v: &mut Vec<char>, n: u64, name: &str)
    ensures
        final(v)@ == old(v)@ + amount(n as nat, name@),
{
    push_decimal(v, n);
    extend_str(v, name);
    if n != 1 {
        v.push('s');
    }
    v.push(',');
    v.push(' ');
}

/// Whenever the minutes of the hour are not zero, the uptime ends with them,
/// whatever the days and hours; and whenever there are days, it starts with them.
pub proof fn uptime_shows_minutes_and_days(secs: nat)
    ensures
        (secs % 3600) / 60 > 0 ==> crate::text::ends_with(
            uptime_text(secs),
            decimal((secs % 3600) / 60) + " min"@ + plural((secs % 3600) / 60),
        ),
        secs / 86400 > 0 ==> starts_with(
            uptime_text(secs),
            decimal(secs / 86400) + " day"@ + plural(secs / 86400),
        ),
{
    let days = secs / 86400;
    let hours = (secs % 86400) / 3600;
    let m = (secs % 3600) / 60;
    let a = uptime_amounts(secs);
    let pa = if days > 0 {
        amount(days, " day"@)
    } else {
        seq![]
    };
    let pb = if hours > 0 {
        pa + amount(hours, " hour"@)
    } else {
        pa
    };
    if m > 0 || pb.len() == 0 {
        assert(a == pb + amount(m, " min"@));
    }
    assert(a.len() >= 2 && a[a.len() - 2] == ',' && a.last() == ' ') by {
        if m > 0 || pb.len() == 0 {
            assert(a == pb + amount(m, " min"@));
        } else if hours > 0 {
            assert(a == pa + amount(hours, " hour"@));
        } else {
            assert(a == amount(days, " day"@));
        }
    }
    if m > 0 {
        let e = decimal(m) + " min"@ + plural(m);
        assert(uptime_text(secs) =~= pb + e);
        assert((pb + e).skip(pb.len() as int) =~= e);
    }
    if days > 0 {
        let pre = decimal(days) + " day"@ + plural(days);
        assert(a.take(pre.len() as int) =~= pre);
        assert(uptime_text(secs) == a.take(a.len() - 2));
        assert(a.len() - 2 >= pre.len());
        assert(uptime_text(secs).take(pre.len() as int) =~= pre);
    }
}

/// Under an hour, the uptime is the minutes alone, `0 mins` included.
pub proof fn short_uptime_is_minutes(secs: nat)
    requires
        secs < 3600,
    ensures
        uptime_text(secs) == decimal(secs / 60) + " min"@ + plural(secs / 60),
{
    let m = secs / 60;
    assert((secs % 3600) / 60 == m);
    let a = amount(m, " min"@);
    assert(uptime_amounts(secs) == a);
    assert(ends_with_comma(a));
    assert(a.take(a.len() - 2) =~= decimal(m) + " min"@ + plural(m));
}

/// The uptime never ends with a separator: the last amount loses its `, `.
pub proof fn uptime_has_no_trailing_separator(secs: nat)
    ensures
        uptime_amounts(secs).len() >= 2,
        ends_with_comma(uptime_amounts(secs)),
        uptime_text(secs) + seq![',', ' '] == uptime_amounts(secs),
{
    let a = uptime_amounts(secs);
    assert(a.len() > 0);
    assert(a[a.len() - 2] == ',' && a.last() == ' ');
    assert(a.take(a.len() - 2) + seq![',', ' '] =~= a);
}

/// The uptime of `secs` seconds: the days, hours and minutes that are not zero
/// (minutes also when nothing else is shown), separated by `, `.
pub fn uptime(secs: u64) -> (r: String)
    ensures
        r@ == uptime_text(secs as nat),
{
    let days = secs / 86400;
    let hours = (secs % 86400) / 3600;
    let minutes = (secs % 3600) / 60;
    let mut out: Vec<char> = Vec::new();
    if days > 0 {
        push_amount(&mut out, days, " day");
    }
    if hours > 0 {
        push_amount(&mut out, hours, " hour");
    }
    if minutes > 0 || out.len() == 0 {
        push_amount(&mut out, minutes, " min");
    }
    assert(out@ == uptime_amounts(secs as nat));
    let n = out.len();
    if n >= 2 && out[n - 2] == ',' && out[n - 1] == ' ' {
        out.truncate(n - 2);
    }
    string_of(&out)
}

/// The color for a usage of `pct` percent.
pub open spec fn level_color(pct: usize, t: Thresholds, p: Palette) -> Seq<char> {
    if pct < t.medium {
        p.low@
    } else if pct < t.high {
        p.medium@
    } else {
        p.high@
    }
}

/// The percentage of `total` that `used` is, rounded down: `used * 100`
/// wraps at 2^64 and the quotient is cast to `usize`.
pub open spec fn percent(used: u64, total: u64) -> usize {
    (used.wrapping_mul(100) / total) as usize
}

/// `used / total (pct%)` from the two sizes as texts, with the percentage in
/// the color of its level, followed by the values color.
pub open spec fn usage_from(
    used_text: Seq<char>,
    total_text: Seq<char>,
    pct: usize,
    t: Thresholds,
    p: Palette,
) -> Seq<char> {
    used_text + seq![' ', '/', ' '] + total_text + seq![' ', '('] + level_color(pct, t, p) + decimal(
        pct as nat,
    ) + seq!['%'] + p.values@ + seq![')']
}

/// `used / total (pct%)` with the sizes for people.
pub open spec fn usage_text(used: u64, total: u64, t: Thresholds, p: Palette) -> Seq<char> {
    usage_from(binary_size(used), binary_size(total), percent(used, total), t, p)
}

/// The usage line from the sizes already written for people and the
/// percentage; see `usage_from`.
pub fn usage_line(used_text: &str, total_text: &str, pct: usize, t: Thresholds, p: &Palette) -> (r:
    String)
    ensures
        r@ == usage_from(used_text@, total_text@, pct, t, *p),
{
    let mut v: Vec<char> = chars_of(used_text);
    v.push(' ');
    v.push('/');
    v.push(' ');
    extend_str(&mut v, total_text);
    v.push(' ');
    v.push('(');
    if pct < t.medium {
        extend_str(&mut v, p.low.as_str());
    } else if pct < t.high {
        extend_str(&mut v, p.medium.as_str());
    } else {
        extend_str(&mut v, p.high.as_str());
    }
    push_decimal(&mut v, pct as u64);
    v.push('%');
    extend_str(&mut v, p.values.as_str());
    v.push(')');
    string_of(&v)
}

fn push_usage(v: &mut Vec<char>, used: u64, total: u64, t: Thresholds, p: &Palette)
    requires
        total > 0,
    ensures
        final(v)@ == old(v)@ + usage_text(used, total, t, *p),
{
    let pct = (used.wrapping_mul(100) / total) as usize;
    let used_text = format_binary_size(used);
    let total_text = format_binary_size(total);
    let line = usage_line(used_text.as_str(), total_text.as_str(), pct, t, p);
    extend_str(v, line.as_str());
}

/// What the system reported of its uptime, memory and swap, in seconds and bytes.
#[derive(Debug, Clone, Copy, PartialEq, Eq)]
pub struct MemStats {
    pub uptime_secs: u64,
    pub ram_total: u64,
    pub ram_unused: u64,
    pub swap_total: u64,
    pub swap_free: u64,
}

/// Whether the percentages of `s` can be computed: neither total is zero
/// (the fetch divides by both).
pub open spec fn mem_totals_nonzero(s: MemStats) -> bool {
    s.ram_total > 0 && s.swap_total > 0
}

/// The uptime, memory and swap modules: nothing when the system did not
/// report; otherwise the uptime, and the used memory and used swap each as
/// `used / total (pct%)`, where used is total minus unused (or free),
/// wrapping at 2^64.
pub fn sysinfo(stats: Option<MemStats>, palette: &Palette, ram: Thresholds, swap: Thresholds) -> (r: (
    Option<String>,
    Option<String>,
    Option<String>,
))
    requires
        stats matches Some(s) ==> mem_totals_nonzero(s),
    ensures
        (r.0.deep_view(), r.1.deep_view(), r.2.deep_view()) == match stats {
            Some(s) => (
                Some(uptime_text(s.uptime_secs as nat)),
                Some(usage_text(s.ram_total.wrapping_sub(s.ram_unused), s.ram_total, ram, *palette)),
                Some(usage_text(s.swap_total.wrapping_sub(s.swap_free), s.swap_total, swap, *palette)),
            ),
            None => (None, None, None),
        },
{
    match stats {
        Some(s) => {
            let up = uptime(s.uptime_secs);
            let mut mem: Vec<char> = Vec::new();
            push_usage(&mut mem, s.ram_total.wrapping_sub(s.ram_unused), s.ram_total, ram, palette);
            let mut sw: Vec<char> = Vec::new();
            push_usage(&mut sw, s.swap_total.wrapping_sub(s.swap_free), s.swap_total, swap, palette);
            (Some(up), Some(string_of(&mem)), Some(string_of(&sw)))
        },
        None => (None, None, None),
    }
}

// ----------------------------------------------------------------------
// mounts
// ----------------------------------------------------------------------

/// The `k`-th word of `ws`, or nothing past the end.
pub open spec fn field(ws: Seq<Seq<char>>, k: int) -> Seq<char> {
    if k < ws.len() {
        ws[k]
    } else {
        seq![]
    }
}

/// The source, the mount point and the file system type of a line of `/proc/mounts`.
pub open spec fn mount_fields(line: Seq<char>) -> (Seq<char>, Seq<char>, Seq<char>) {
    let ws = words(line);
    (field(ws, 0), field(ws, 1), field(ws, 2))
}

/// The file systems of disks and partitions that the fetch lists.
pub open spec fn listed_fs(fs: Seq<char>) -> bool {
    ||| fs == "ext4"@
    ||| fs == "ext3"@
    ||| fs == "ext2"@
    ||| fs == "xfs"@
    ||| fs == "btrfs"@
    ||| fs == "f2fs"@
    ||| fs == "zfs"@
    ||| fs == "ntfs"@
    ||| fs == "vfat"@
    ||| fs == "exfat"@
}

/// Sources that the fetch lists: devices under `/dev/` (the second test, for
/// a source starting with `/loop`, can never hold for one of them).
pub open spec fn listed_source(src: Seq<char>) -> bool {
    starts_with(src, "/dev/"@) && !starts_with(src, "/loop"@)
}

/// Mount points that the fetch lists: none under `/boot` and not the
/// container storage overlay.
pub open spec fn listed_path(path: Seq<char>) -> bool {
    !(starts_with(path, "/boot"@) || path == "/var/lib/containers/storage/overlay"@)
}

/// Whether an earlier line of `ls` than the `i`-th has the same source; every
/// line counts, listed or not.
pub open spec fn source_seen(ls: Seq<Seq<char>>, i: int) -> bool {
    exists|j: int| 0 <= j < i && mount_fields(ls[j]).0 == mount_fields(ls[i]).0
}

/// Whether the `i`-th line of `ls` is listed.
pub open spec fn listed(ls: Seq<Seq<char>>, i: int) -> bool {
    let f = mount_fields(ls[i]);
    listed_fs(f.2) && listed_source(f.0) && listed_path(f.1) && !source_seen(ls, i)
}

/// The file system type and mount point of each listed line of `ls`, in order.
pub open spec fn mount_list(ls: Seq<Seq<char>>) -> Seq<(Seq<char>, Seq<char>)>
    decreases ls.len(),
{
    if ls.len() == 0 {
        seq![]
    } else {
        let prev = mount_list(ls.drop_last());
        let f = mount_fields(ls.last());
        if listed(ls, ls.len() - 1) {
            prev.push((f.2, f.1))
        } else {
            prev
        }
    }
}

/// The views of a sequence of string pairs.
pub open spec fn pair_views(v: Seq<(String, String)>) -> Seq<(Seq<char>, Seq<char>)> {
    v.map_values(|p: (String, String)| (p.0@, p.1@))
}

fn word_or_empty(ws: &Vec<Vec<char>>, k: usize) -> (out: Vec<char>)
    ensures
        out@ == field(views(ws@), k as int),
{
    if k < ws.len() {
        sub_chars(&ws[k], 0, ws[k].len())
    } else {
        Vec::new()
    }
}

fn is_listed_fs(fs: &Vec<char>) -> (b: bool)
    ensures
        b == listed_fs(fs@),
{
    equals_str(fs, "ext4") || equals_str(fs, "ext3") || equals_str(fs, "ext2") || equals_str(
        fs,
        "xfs",
    ) || equals_str(fs, "btrfs") || equals_str(fs, "f2fs") || equals_str(fs, "zfs")
        || equals_str(fs, "ntfs") || equals_str(fs, "vfat") || equals_str(fs, "exfat")
}

fn contains_chars(seen: &Vec<Vec<char>>, x: &Vec<char>) -> (b: bool)
    ensures
        b == exists|j: int| 0 <= j < seen@.len() && seen@[j]@ == x@,
{
    let mut j: usize = 0;
    while j < seen.len()
        invariant
            0 <= j <= seen.len(),
            forall|k: int| 0 <= k < j ==> seen@[k]@ != x@,
        decreases seen.len() - j,
    {
        if same_chars(&seen[j], x) {
            return true;
        }
        j += 1;
    }
    false
}

/// Reads `/proc/mounts`: for each line whose file system type is a disk file
/// system, whose source is a device under `/dev/`, whose mount point is not
/// under `/boot` nor the container overlay, and whose source no earlier line
/// had, its file system type and mount point, in order.
pub fn mount_points(content: &str) -> (r: Vec<(String, String)>)
    ensures
        pair_views(r@) == mount_list(lines(content@)),
{
    let v = chars_of(content);
    let ls = lines_of(&v);
    let ghost all = views(ls@);
    let mut out: Vec<(String, String)> = Vec::new();
    let mut seen: Vec<Vec<char>> = Vec::new();
    let mut i: usize = 0;
    while i < ls.len()
        invariant
            0 <= i <= ls.len(),
            all == views(ls@),
            all == lines(content@),
            pair_views(out@) == mount_list(all.take(i as int)),
            seen@.len() == i,
            forall|j: int| 0 <= j < i ==> seen@[j]@ == mount_fields(all[j]).0,
        decreases ls.len() - i,
    {
        let ghost pre = all.take(i + 1);
        assert(pre.drop_last() == all.take(i as int));
        assert(pre.last() == ls@[i as int]@);
        let ws = words_of(&ls[i]);
        let source = word_or_empty(&ws, 0);
        let path = word_or_empty(&ws, 1);
        let fs = word_or_empty(&ws, 2);
        let unique = !contains_chars(&seen, &source);
        proof {
            assert(pre[i as int] == all[i as int]);
            if source_seen(pre, i as int) {
                let j = choose|j: int|
                    0 <= j < i && mount_fields(pre[j]).0 == mount_fields(pre[i as int]).0;
                assert(pre[j] == all[j]);
                assert(seen@[j]@ == source@);
            }
            if !unique {
                let j = choose|j: int| 0 <= j < seen@.len() && seen@[j]@ == source@;
                assert(pre[j] == all[j]);
                assert(source_seen(pre, i as int));
            }
        }
        let keep = is_listed_fs(&fs) && has_prefix(&source, "/dev/") && !has_prefix(&source, "/loop")
            && !(has_prefix(&path, "/boot") || equals_str(&path, "/var/lib/containers/storage/overlay"))
            && unique;
        assert(keep == listed(pre, i as int));
        seen.push(source);
        if keep {
            let ghost old_out = out@;
            out.push((string_of(&fs), string_of(&path)));
            assert(pair_views(out@) == pair_views(old_out).push((fs@, path@)));
        }
        i += 1;
    }
    assert(all.take(ls.len() as int) == all);
    out
}

/// What `statvfs` reported of a file system: its fragment size and its total
/// and free blocks, in fragments.
#[derive(Debug, Clone, Copy, PartialEq, Eq)]
pub struct FsStats {
    pub fragment_size: u64,
    pub blocks: u64,
    pub blocks_free: u64,
}

/// The size in bytes of the file system, wrapping at 2^64.
pub open spec fn fs_total(s: FsStats) -> u64 {
    s.blocks.wrapping_mul(s.fragment_size)
}

/// The bytes in use on the file system, wrapping at 2^64.
pub open spec fn fs_used(s: FsStats) -> u64 {
    s.blocks.wrapping_sub(s.blocks_free).wrapping_mul(s.fragment_size)
}

/// Whether the percentage of `s` can be computed: its total is not zero
/// (the fetch divides by it).
pub open spec fn fs_total_nonzero(s: FsStats) -> bool {
    fs_total(s) > 0
}

/// A listed mount: its file system type, its mount point, and what `statvfs`
/// reported of it, if anything.
pub struct MountInfo {
    pub fs: String,
    pub mount_point: String,
    pub stats: Option<FsStats>,
}

/// Whether the fetch can compute the line of `m`, if it has stats.
pub open spec fn mount_in_range(m: MountInfo) -> bool {
    match m.stats {
        Some(s) => fs_total_nonzero(s),
        None => true,
    }
}

/// The line of one mount: the mounts key, the mount point in its color, the
/// usage, and the file system type.
pub open spec fn mount_line(
    fs: Seq<char>,
    mount: Seq<char>,
    s: FsStats,
    p: Palette,
    key: Seq<char>,
    t: Thresholds,
) -> Seq<char> {
    p.keys@ + key + seq![' ', '('] + p.mountpoints@ + mount + p.keys@ + seq![')'] + p.separator@
        + seq![':'] + p.values@ + seq![' '] + usage_text(fs_used(s), fs_total(s), t, p)
        + seq![' ', '-', ' '] + fs + seq!['\n']
}

/// The lines of the mounts of `ms` that have stats, in order.
pub open spec fn mount_lines(ms: Seq<MountInfo>, p: Palette, key: Seq<char>, t: Thresholds) -> Seq<
    char,
>
    decreases ms.len(),
{
    if ms.len() == 0 {
        seq![]
    } else {
        let prev = mount_lines(ms.drop_last(), p, key, t);
        match ms.last().stats {
            Some(s) => prev + mount_line(ms.last().fs@, ms.last().mount_point@, s, p, key, t),
            None => prev,
        }
    }
}

/// The mounts module: one line per mount that has stats, in order; nothing
/// when there is no such line.
#[verifier::rlimit(30)]
pub fn mounts(ms: &Vec<MountInfo>, palette: &Palette, mounts_key: &str, thresholds: Thresholds) -> (r:
    Option<String>)
    requires
        forall|i: int| 0 <= i < ms@.len() ==> mount_in_range(#[trigger] ms@[i]),
    ensures
        r.deep_view() == {
            let text = mount_lines(ms@, *palette, mounts_key@, thresholds);
            if text.len() == 0 {
                None
            } else {
                Some(text)
            }
        },
        r is None <==> forall|i: int| 0 <= i < ms@.len() ==> (#[trigger] ms@[i]).stats is None,
{
    let mut out: Vec<char> = Vec::new();
    let mut i: usize = 0;
    while i < ms.len()
        invariant
            0 <= i <= ms.len(),
            forall|k: int| 0 <= k < ms@.len() ==> mount_in_range(#[trigger] ms@[k]),
            out@ == mount_lines(ms@.take(i as int), *palette, mounts_key@, thresholds),
            out@.len() == 0 <==> forall|k: int| 0 <= k < i ==> (#[trigger] ms@[k]).stats is None,
        decreases ms.len() - i,
    {
        assert(ms@.take(i + 1).drop_last() == ms@.take(i as int));
        assert(ms@.take(i + 1).last() == ms@[i as int]);
        let m = &ms[i];
        if let Some(s) = m.stats {
            assert(mount_in_range(ms@[i as int]));
            let bs = s.fragment_size;
            let total = s.blocks.wrapping_mul(bs);
            let used = s.blocks.wrapping_sub(s.blocks_free).wrapping_mul(bs);
            extend_str(&mut out, palette.keys.as_str());
            extend_str(&mut out, mounts_key);
            out.push(' ');
            out.push('(');
            extend_str(&mut out, palette.mountpoints.as_str());
            extend_str(&mut out, m.mount_point.as_str());
            extend_str(&mut out, palette.keys.as_str());
            out.push(')');
            extend_str(&mut out, palette.separator.as_str());
            out.push(':');
            extend_str(&mut out, palette.values.as_str());
            out.push(' ');
            push_usage(&mut out, used, total, thresholds, palette);
            out.push(' ');
            out.push('-');
            out.push(' ');
            extend_str(&mut out, m.fs.as_str());
            out.push('\n');
        }
        i += 1;
    }
    assert(ms@.take(ms.len() as int) == ms@);
    if out.len() == 0 {
        None
    } else {
        Some(string_of(&out))
    }
}

/// The stats of each listed line of `ls`, in order, where `st` holds the
/// stats reported for the mount point of each line of `ls`.
pub open spec fn listed_stats(ls: Seq<Seq<char>>, st: Seq<Option<FsStats>>) -> Seq<Option<FsStats>>
    decreases ls.len(),
{
    if ls.len() == 0 {
        seq![]
    } else {
        let prev = listed_stats(ls.drop_last(), st);
        if listed(ls, ls.len() - 1) {
            prev.push(st[ls.len() - 1])
        } else {
            prev
        }
    }
}

/// The mounts text of the `/proc/mounts` lines `ls`, where `st` holds the
/// stats reported for the mount point of each line: the line of each listed
/// line whose mount point has stats, in order.
pub open spec fn file_mount_lines(
    ls: Seq<Seq<char>>,
    st: Seq<Option<FsStats>>,
    p: Palette,
    key: Seq<char>,
    t: Thresholds,
) -> Seq<char>
    decreases ls.len(),
{
    if ls.len() == 0 {
        seq![]
    } else {
        let prev = file_mount_lines(ls.drop_last(), st, p, key, t);
        let f = mount_fields(ls.last());
        if listed(ls, ls.len() - 1) && st[ls.len() - 1] is Some {
            prev + mount_line(f.2, f.1, st[ls.len() - 1]->0, p, key, t)
        } else {
            prev
        }
    }
}

proof fn lemma_listed_prefix(ls: Seq<Seq<char>>, i: int)
    requires
        0 <= i < ls.len() - 1,
    ensures
        listed(ls.drop_last(), i) == listed(ls, i),
{
    let d = ls.drop_last();
    assert(d[i] == ls[i]);
    if source_seen(ls, i) {
        let j = choose|j: int| 0 <= j < i && mount_fields(ls[j]).0 == mount_fields(ls[i]).0;
        assert(d[j] == ls[j]);
    }
    if source_seen(d, i) {
        let j = choose|j: int| 0 <= j < i && mount_fields(d[j]).0 == mount_fields(d[i]).0;
        assert(d[j] == ls[j]);
    }
}

proof fn lemma_listed_lengths(ls: Seq<Seq<char>>, st: Seq<Option<FsStats>>)
    ensures
        listed_stats(ls, st).len() == mount_list(ls).len(),
    decreases ls.len(),
{
    if ls.len() > 0 {
        lemma_listed_lengths(ls.drop_last(), st);
    }
}

proof fn lemma_file_lines_empty(
    ls: Seq<Seq<char>>,
    st: Seq<Option<FsStats>>,
    p: Palette,
    key: Seq<char>,
    t: Thresholds,
)
    requires
        st.len() >= ls.len(),
    ensures
        file_mount_lines(ls, st, p, key, t).len() == 0 <==> forall|i: int|
            0 <= i < ls.len() ==> !(listed(ls, i) && #[trigger] st[i] is Some),
    decreases ls.len(),
{
    if ls.len() > 0 {
        let n = ls.len() - 1;
        let d = ls.drop_last();
        lemma_file_lines_empty(d, st, p, key, t);
        assert forall|i: int| 0 <= i < n implies listed(d, i) == listed(ls, i) by {
            lemma_listed_prefix(ls, i);
        }
        let prev = file_mount_lines(d, st, p, key, t);
        if listed(ls, n) && st[n] is Some {
            let f = mount_fields(ls.last());
            let line = mount_line(f.2, f.1, st[n]->0, p, key, t);
            assert(line.len() > 0);
            assert(file_mount_lines(ls, st, p, key, t) == prev + line);
        } else {
            assert(file_mount_lines(ls, st, p, key, t) == prev);
            if prev.len() == 0 {
                assert forall|i: int| 0 <= i < ls.len() implies !(listed(ls, i)
                    && #[trigger] st[i] is Some) by {
                    if i < n {
                        assert(!(listed(d, i) && st[i] is Some));
                    }
                }
            } else {
                let i = choose|i: int| 0 <= i < n && (listed(d, i) && #[trigger] st[i] is Some);
                assert(listed(ls, i));
            }
        }
    }
}

/// A mount as a triple of its file system type, mount point and stats.
pub open spec fn mount_view(m: MountInfo) -> (Seq<char>, Seq<char>, Option<FsStats>) {
    (m.fs@, m.mount_point@, m.stats)
}

/// Whether `ms` are the mounts listed from the `/proc/mounts` lines `ls`, in
/// order, each with the stats that `st` holds for its line.
pub open spec fn mounts_from_file(ms: Seq<MountInfo>, ls: Seq<Seq<char>>, st: Seq<Option<FsStats>>) -> bool {
    &&& ms.len() == mount_list(ls).len()
    &&& forall|k: int|
        0 <= k < ms.len() ==> #[trigger] mount_view(ms[k]) == (
            mount_list(ls)[k].0,
            mount_list(ls)[k].1,
            listed_stats(ls, st)[k],
        )
}

proof fn lemma_mounts_of_file(
    ls: Seq<Seq<char>>,
    st: Seq<Option<FsStats>>,
    ms: Seq<MountInfo>,
    p: Palette,
    key: Seq<char>,
    t: Thresholds,
)
    requires
        st.len() >= ls.len(),
        mounts_from_file(ms, ls, st),
    ensures
        mount_lines(ms, p, key, t) == file_mount_lines(ls, st, p, key, t),
    decreases ls.len(),
{
    if ls.len() > 0 {
        let n = ls.len() - 1;
        let d = ls.drop_last();
        lemma_listed_lengths(d, st);
        if listed(ls, n) {
            let md = ms.drop_last();
            assert forall|k: int| 0 <= k < md.len() implies #[trigger] mount_view(md[k]) == (
                mount_list(d)[k].0,
                mount_list(d)[k].1,
                listed_stats(d, st)[k],
            ) by {
                assert(md[k] == ms[k]);
                assert(mount_view(ms[k]) == (
                    mount_list(ls)[k].0,
                    mount_list(ls)[k].1,
                    listed_stats(ls, st)[k],
                ));
            }
            lemma_mounts_of_file(d, st, md, p, key, t);
            let l = ms.len() - 1;
            assert(mount_view(ms[l]) == (
                mount_list(ls)[l].0,
                mount_list(ls)[l].1,
                listed_stats(ls, st)[l],
            ));
            assert(ms.last() == ms[l]);
        } else {
            assert(mount_list(ls) == mount_list(d));
            assert(listed_stats(ls, st) == listed_stats(d, st));
            lemma_mounts_of_file(d, st, ms, p, key, t);
        }
    }
}

/// The mounts module over a whole `/proc/mounts` file: given the mounts that
/// `mount_points` lists for the lines `ls`, each with the stats reported for
/// its mount point (`st` holds them for every line), the text is the line of
/// each listed line whose mount point has stats, in order, and it is empty
/// exactly when no listed line has stats.
pub proof fn mounts_of_file(
    ls: Seq<Seq<char>>,
    st: Seq<Option<FsStats>>,
    ms: Seq<MountInfo>,
    p: Palette,
    key: Seq<char>,
    t: Thresholds,
)
    requires
        st.len() == ls.len(),
        mounts_from_file(ms, ls, st),
    ensures
        mount_lines(ms, p, key, t) == file_mount_lines(ls, st, p, key, t),
        mount_lines(ms, p, key, t).len() == 0 <==> forall|i: int|
            0 <= i < ls.len() ==> !(listed(ls, i) && #[trigger] st[i] is Some),
{
    lemma_mounts_of_file(ls, st, ms, p, key, t);
    lemma_file_lines_empty(ls, st, p, key, t);
}

/// The mounts listed from a `/proc/mounts` file have disk file system types:
/// ext4, ext3, ext2, xfs, btrfs, f2fs, zfs, ntfs, vfat or exfat.
pub proof fn listed_mounts_have_disk_types(ls: Seq<Seq<char>>, k: int)
    requires
        0 <= k < mount_list(ls).len(),
    ensures
        listed_fs(mount_list(ls)[k].0),
    decreases ls.len(),
{
    let d = ls.drop_last();
    if k < mount_list(d).len() {
        listed_mounts_have_disk_types(d, k);
    }
}

/// Every mount line ends with ` - `, the mount's file system type, and a newline.
pub proof fn mount_line_ends_with_type(
    fs: Seq<char>,
    mount: Seq<char>,
    s: FsStats,
    p: Palette,
    key: Seq<char>,
    t: Thresholds,
)
    ensures
        exists|head: Seq<char>|
            mount_line(fs, mount, s, p, key, t) == head + seq![' ', '-', ' '] + fs + seq!['\n'],
{
    let head = p.keys@ + key + seq![' ', '('] + p.mountpoints@ + mount + p.keys@ + seq![')']
        + p.separator@ + seq![':'] + p.values@ + seq![' '] + usage_text(
        fs_used(s),
        fs_total(s),
        t,
        p,
    );
    assert(mount_line(fs, mount, s, p, key, t) == head + seq![' ', '-', ' '] + fs + seq!['\n']);
}

/// The positions of the `/proc/mounts` lines `ls` that give a mounts line:
/// the listed lines whose mount point has stats in `st`, in order.
pub open spec fn shown_positions(ls: Seq<Seq<char>>, st: Seq<Option<FsStats>>) -> Seq<int>
    decreases ls.len(),
{
    if ls.len() == 0 {
        seq![]
    } else {
        let prev = shown_positions(ls.drop_last(), st);
        if listed(ls, ls.len() - 1) && st[ls.len() - 1] is Some {
            prev.push(ls.len() - 1)
        } else {
            prev
        }
    }
}

/// The mounts lines of the `/proc/mounts` lines `ls` at the positions `ks`,
/// one after another: each the line of that line's file system type and
/// mount point with the stats `st` holds for it.
pub open spec fn lines_at(
    ls: Seq<Seq<char>>,
    st: Seq<Option<FsStats>>,
    ks: Seq<int>,
    p: Palette,
    key: Seq<char>,
    t: Thresholds,
) -> Seq<char>
    decreases ks.len(),
{
    if ks.len() == 0 {
        seq![]
    } else {
        let k = ks.last();
        let f = mount_fields(ls[k]);
        lines_at(ls, st, ks.drop_last(), p, key, t) + mount_line(f.2, f.1, st[k]->0, p, key, t)
    }
}

proof fn lemma_lines_at_prefix(
    ls: Seq<Seq<char>>,
    st: Seq<Option<FsStats>>,
    ks: Seq<int>,
    p: Palette,
    key: Seq<char>,
    t: Thresholds,
)
    requires
        ls.len() > 0,
        forall|j: int| 0 <= j < ks.len() ==> 0 <= #[trigger] ks[j] < ls.len() - 1,
    ensures
        lines_at(ls.drop_last(), st, ks, p, key, t) == lines_at(ls, st, ks, p, key, t),
    decreases ks.len(),
{
    if ks.len() > 0 {
        let l = ks.len() - 1;
        assert(0 <= ks[l] < ls.len() - 1);
        assert(ls.drop_last()[ks.last()] == ls[ks.last()]);
        assert forall|j: int| 0 <= j < ks.drop_last().len() implies 0 <= #[trigger] ks.drop_last()[j]
            < ls.len() - 1 by {
            assert(ks.drop_last()[j] == ks[j]);
        }
        lemma_lines_at_prefix(ls, st, ks.drop_last(), p, key, t);
    }
}

proof fn lemma_shown_positions(
    ls: Seq<Seq<char>>,
    st: Seq<Option<FsStats>>,
    p: Palette,
    key: Seq<char>,
    t: Thresholds,
)
    requires
        st.len() >= ls.len(),
    ensures
        forall|j: int|
            0 <= j < shown_positions(ls, st).len() ==> 0 <= #[trigger] shown_positions(ls, st)[j]
                < ls.len() && listed(ls, shown_positions(ls, st)[j]) && st[shown_positions(
                ls,
                st,
            )[j]] is Some,
        forall|j1: int, j2: int|
            0 <= j1 < j2 < shown_positions(ls, st).len() ==> #[trigger] shown_positions(ls, st)[j1]
                < #[trigger] shown_positions(ls, st)[j2],
        forall|i: int|
            0 <= i < ls.len() && listed(ls, i) && #[trigger] st[i] is Some ==> shown_positions(
                ls,
                st,
            ).contains(i),
        file_mount_lines(ls, st, p, key, t) == lines_at(ls, st, shown_positions(ls, st), p, key, t),
    decreases ls.len(),
{
    if ls.len() > 0 {
        let n = ls.len() - 1;
        let d = ls.drop_last();
        let prev = shown_positions(d, st);
        let ks = shown_positions(ls, st);
        lemma_shown_positions(d, st, p, key, t);
        lemma_lines_at_prefix(ls, st, prev, p, key, t);
        assert forall|i: int| 0 <= i < n implies listed(d, i) == listed(ls, i) by {
            lemma_listed_prefix(ls, i);
        }
        assert forall|j: int| 0 <= j < ks.len() implies 0 <= #[trigger] ks[j] < ls.len() && listed(
            ls,
            ks[j],
        ) && st[ks[j]] is Some by {
            if j < prev.len() {
                assert(ks[j] == prev[j]);
            }
        }
        assert forall|j1: int, j2: int| 0 <= j1 < j2 < ks.len() implies #[trigger] ks[j1]
            < #[trigger] ks[j2] by {
            if j2 < prev.len() {
                assert(ks[j1] == prev[j1] && ks[j2] == prev[j2]);
            } else {
                assert(ks[j1] == prev[j1]);
            }
        }
        assert forall|i: int| 0 <= i < ls.len() && listed(ls, i) && #[trigger] st[i] is Some implies ks.contains(
            i,
        ) by {
            if i < n {
                assert(prev.contains(i));
                let j = choose|j: int| 0 <= j < prev.len() && prev[j] == i;
                assert(ks[j] == prev[j]);
            } else {
                assert(ks[ks.len() - 1] == i);
            }
        }
        if listed(ls, n) && st[n] is Some {
            assert(ks.drop_last() == prev);
            assert(ks.last() == n);
            assert(ls[n] == ls.last());
        }
    }
}

/// What the mounts module prints for a whole `/proc/mounts` file: given the
/// mounts that `mount_points` lists for the lines `ls`, each with the stats
/// reported for its mount point (`st` holds them for every line), the text
/// is, one after another, the line of each position in `shown_positions`.
/// These positions rise; each is a listed line whose mount point has stats,
/// and every such line is among them. Each such line has a source under
/// `/dev/` that no earlier line has, listed or not, and a disk file system
/// type; and its mounts line ends with ` - `, that type and a newline.
pub proof fn mounts_text_lines(
    ls: Seq<Seq<char>>,
    st: Seq<Option<FsStats>>,
    ms: Seq<MountInfo>,
    p: Palette,
    key: Seq<char>,
    t: Thresholds,
)
    requires
        st.len() == ls.len(),
        mounts_from_file(ms, ls, st),
    ensures
        mount_lines(ms, p, key, t) == lines_at(ls, st, shown_positions(ls, st), p, key, t),
        forall|j1: int, j2: int|
            0 <= j1 < j2 < shown_positions(ls, st).len() ==> #[trigger] shown_positions(ls, st)[j1]
                < #[trigger] shown_positions(ls, st)[j2],
        forall|i: int|
            0 <= i < ls.len() && listed(ls, i) && #[trigger] st[i] is Some ==> shown_positions(
                ls,
                st,
            ).contains(i),
        forall|j: int|
            #![trigger shown_positions(ls, st)[j]]
            0 <= j < shown_positions(ls, st).len() ==> {
                let k = shown_positions(ls, st)[j];
                let f = mount_fields(ls[k]);
                &&& 0 <= k < ls.len()
                &&& st[k] is Some
                &&& starts_with(f.0, "/dev/"@)
                &&& forall|i: int| 0 <= i < k ==> mount_fields(#[trigger] ls[i]).0 != f.0
                &&& listed_fs(f.2)
                &&& exists|head: Seq<char>|
                    mount_line(f.2, f.1, st[k]->0, p, key, t) == head + seq![' ', '-', ' '] + f.2
                        + seq!['\n']
            },
{
    mounts_of_file(ls, st, ms, p, key, t);
    lemma_shown_positions(ls, st, p, key, t);
    let ks = shown_positions(ls, st);
    assert forall|j: int| #![trigger ks[j]] 0 <= j < ks.len() implies {
        let k = ks[j];
        let f = mount_fields(ls[k]);
        &&& 0 <= k < ls.len()
        &&& st[k] is Some
        &&& starts_with(f.0, "/dev/"@)
        &&& forall|i: int| 0 <= i < k ==> mount_fields(#[trigger] ls[i]).0 != f.0
        &&& listed_fs(f.2)
        &&& exists|head: Seq<char>|
            mount_line(f.2, f.1, st[k]->0, p, key, t) == head + seq![' ', '-', ' '] + f.2 + seq![
                '\n',
            ]
    } by {
        let k = ks[j];
        let f = mount_fields(ls[k]);
        assert(listed(ls, k));
        assert forall|i: int| 0 <= i < k implies mount_fields(#[trigger] ls[i]).0 != f.0 by {
            if mount_fields(ls[i]).0 == f.0 {
                assert(source_seen(ls, k));
            }
        }
        mount_line_ends_with_type(f.2, f.1, st[k]->0, p, key, t);
    }
}

/// No listed mount is mounted under `/boot` (`/boot/efi` included) or is the
/// container storage overlay.
pub proof fn listed_mounts_are_not_boot(ls: Seq<Seq<char>>, k: int)
    requires
        0 <= k < mount_list(ls).len(),
    ensures
        !starts_with(mount_list(ls)[k].1, "/boot"@),
        mount_list(ls)[k].1 != "/var/lib/containers/storage/overlay"@,
    decreases ls.len(),
{
    let d = ls.drop_last();
    if k < mount_list(d).len() {
        listed_mounts_are_not_boot(d, k);
    }
}

/// No two listed mounts share a source: a line whose source an earlier line
/// had, listed or not, is left out.
pub proof fn listed_sources_are_distinct(ls: Seq<Seq<char>>, i: int, j: int)
    requires
        0 <= i < j < ls.len(),
        listed(ls, i),
        listed(ls, j),
    ensures
        mount_fields(ls[i]).0 != mount_fields(ls[j]).0,
{
}

} // verus!
