//! The output of the fetch: each row's key with the value of its module,
//! shown only when the module is enabled, and the screen that puts the rows
//! beside the logo, each line cut to the terminal's width.
use vstd::prelude::*;
use crate::config::{flag_views, module_enabled, string_rows, Settings};
use crate::display::{measure_width, text_width, truncate, truncated};
use crate::text::{chars_of, extend, extend_str, lines, lines_of, repeat, string_of, views};

verus! {

/// What each module found, before the settings decide what is shown.
pub struct ModuleValues {
    pub title: Option<String>,
    pub sep: Option<String>,
    pub os: Option<String>,
    pub host: Option<String>,
    pub kernel: Option<String>,
    pub uptime: Option<String>,
    pub shell: Option<String>,
    pub de: Option<String>,
    pub theme: Option<String>,
    pub cursor: Option<String>,
    pub cpu: Option<String>,
    pub gpu: Option<String>,
    pub ram: Option<String>,
    pub swap: Option<String>,
    pub mounts: Option<String>,
    pub locale: Option<String>,
}

/// The eight standard background colors, three spaces each.
pub open spec fn standard_palette() -> Seq<char> {
    "\x1b[40m   \x1b[41m   \x1b[42m   \x1b[43m   \x1b[44m   \x1b[45m   \x1b[46m   \x1b[47m   \x1b[0m"@
}

/// The eight bright background colors, three spaces each.
pub open spec fn bright_palette() -> Seq<char> {
    "\x1b[100m   \x1b[101m   \x1b[102m   \x1b[103m   \x1b[104m   \x1b[105m   \x1b[106m   \x1b[107m   \x1b[0m"@
}

/// `v` if `shown`, else nothing.
pub open spec fn gate(shown: bool, v: Option<String>) -> Option<Seq<char>> {
    if shown {
        v.deep_view()
    } else {
        None
    }
}

/// What the row with the module id `id` shows. Uptime, memory and swap are
/// only read when memory or swap is enabled, so the uptime shows only then.
pub open spec fn shown_value(s: Settings, v: ModuleValues, id: Seq<char>) -> Option<Seq<char>> {
    let on = |name: Seq<char>| module_enabled(flag_views(s.modules@), name);
    let system = on("swap"@) || on("ram"@);
    if id == "title"@ {
        gate(on("title"@), v.title)
    } else if id == "sep"@ {
        gate(on("title"@), v.sep)
    } else if id == "os"@ {
        gate(on("os"@), v.os)
    } else if id == "host"@ {
        gate(on("host"@), v.host)
    } else if id == "kernel"@ {
        gate(on("kernel"@), v.kernel)
    } else if id == "uptime"@ {
        gate(system && on("uptime"@), v.uptime)
    } else if id == "shell"@ {
        gate(on("shell"@), v.shell)
    } else if id == "de"@ {
        gate(on("de"@), v.de)
    } else if id == "theme"@ {
        gate(on("theme"@), v.theme)
    } else if id == "cursor"@ {
        gate(on("cursor"@), v.cursor)
    } else if id == "cpu"@ {
        gate(on("cpu"@), v.cpu)
    } else if id == "gpu"@ {
        gate(on("gpu"@), v.gpu)
    } else if id == "ram"@ {
        gate(system && on("ram"@), v.ram)
    } else if id == "swap"@ {
        gate(system && on("swap"@), v.swap)
    } else if id == "mounts"@ {
        gate(on("mounts"@), v.mounts)
    } else if id == "locale"@ {
        gate(on("locale"@), v.locale)
    } else if id == "palette_sep"@ {
        if on("standard_palette"@) || on("bright_palette"@) {
            Some(seq!['\n'])
        } else {
            None
        }
    } else if id == "standard_palette"@ {
        if on("standard_palette"@) {
            Some(standard_palette())
        } else {
            None
        }
    } else if id == "bright_palette"@ {
        if on("bright_palette"@) {
            Some(bright_palette())
        } else {
            None
        }
    } else {
        None
    }
}

/// Each row shows its own module's value, and only while that module is
/// enabled: the kernel row the kernel, the host row the host, and so on; the
/// title's dashes go with the title. Uptime, memory and swap are read only
/// when memory or swap is enabled, so their rows show only then.
pub proof fn rows_show_their_own_values(s: Settings, v: ModuleValues)
    ensures
        shown_value(s, v, "title"@) == (if module_enabled(flag_views(s.modules@), "title"@) {
            v.title.deep_view()
        } else {
            None
        }),
        shown_value(s, v, "sep"@) == (if module_enabled(flag_views(s.modules@), "title"@) {
            v.sep.deep_view()
        } else {
            None
        }),
        shown_value(s, v, "os"@) == (if module_enabled(flag_views(s.modules@), "os"@) {
            v.os.deep_view()
        } else {
            None
        }),
        shown_value(s, v, "host"@) == (if module_enabled(flag_views(s.modules@), "host"@) {
            v.host.deep_view()
        } else {
            None
        }),
        shown_value(s, v, "kernel"@) == (if module_enabled(flag_views(s.modules@), "kernel"@) {
            v.kernel.deep_view()
        } else {
            None
        }),
        shown_value(s, v, "shell"@) == (if module_enabled(flag_views(s.modules@), "shell"@) {
            v.shell.deep_view()
        } else {
            None
        }),
        shown_value(s, v, "de"@) == (if module_enabled(flag_views(s.modules@), "de"@) {
            v.de.deep_view()
        } else {
            None
        }),
        shown_value(s, v, "theme"@) == (if module_enabled(flag_views(s.modules@), "theme"@) {
            v.theme.deep_view()
        } else {
            None
        }),
        shown_value(s, v, "cursor"@) == (if module_enabled(flag_views(s.modules@), "cursor"@) {
            v.cursor.deep_view()
        } else {
            None
        }),
        shown_value(s, v, "cpu"@) == (if module_enabled(flag_views(s.modules@), "cpu"@) {
            v.cpu.deep_view()
        } else {
            None
        }),
        shown_value(s, v, "gpu"@) == (if module_enabled(flag_views(s.modules@), "gpu"@) {
            v.gpu.deep_view()
        } else {
            None
        }),
        shown_value(s, v, "mounts"@) == (if module_enabled(flag_views(s.modules@), "mounts"@) {
            v.mounts.deep_view()
        } else {
            None
        }),
        shown_value(s, v, "locale"@) == (if module_enabled(flag_views(s.modules@), "locale"@) {
            v.locale.deep_view()
        } else {
            None
        }),
        shown_value(s, v, "uptime"@) == (if (module_enabled(flag_views(s.modules@), "swap"@) || module_enabled(flag_views(s.modules@), "ram"@)) && module_enabled(flag_views(s.modules@), "uptime"@) {
            v.uptime.deep_view()
        } else {
            None
        }),
        shown_value(s, v, "ram"@) == (if (module_enabled(flag_views(s.modules@), "swap"@) || module_enabled(flag_views(s.modules@), "ram"@)) && module_enabled(flag_views(s.modules@), "ram"@) {
            v.ram.deep_view()
        } else {
            None
        }),
        shown_value(s, v, "swap"@) == (if (module_enabled(flag_views(s.modules@), "swap"@) || module_enabled(flag_views(s.modules@), "ram"@)) && module_enabled(flag_views(s.modules@), "swap"@) {
            v.swap.deep_view()
        } else {
            None
        }),
{
    reveal_strlit("title");
    reveal_strlit("sep");
    reveal_strlit("os");
    reveal_strlit("host");
    reveal_strlit("kernel");
    reveal_strlit("uptime");
    reveal_strlit("shell");
    reveal_strlit("de");
    reveal_strlit("theme");
    reveal_strlit("cursor");
    reveal_strlit("cpu");
    reveal_strlit("gpu");
    reveal_strlit("ram");
    reveal_strlit("swap");
    reveal_strlit("mounts");
    reveal_strlit("locale");
    reveal_strlit("palette_sep");
    reveal_strlit("standard_palette");
    reveal_strlit("bright_palette");
    assert("title"@.len() == 5);
    assert("sep"@.len() == 3);
    assert("os"@.len() == 2);
    assert("host"@.len() == 4);
    assert("kernel"@.len() == 6);
    assert("uptime"@.len() == 6);
    assert("shell"@.len() == 5);
    assert("de"@.len() == 2);
    assert("theme"@.len() == 5);
    assert("cursor"@.len() == 6);
    assert("cpu"@.len() == 3);
    assert("gpu"@.len() == 3);
    assert("ram"@.len() == 3);
    assert("swap"@.len() == 4);
    assert("mounts"@.len() == 6);
    assert("locale"@.len() == 6);
    assert("palette_sep"@.len() == 11);
    assert("standard_palette"@.len() == 16);
    assert("bright_palette"@.len() == 14);
    assert("title"@[0] != "shell"@[0]);
    assert("title"@[1] != "theme"@[1]);
    assert("sep"@[0] != "cpu"@[0]);
    assert("sep"@[0] != "gpu"@[0]);
    assert("sep"@[0] != "ram"@[0]);
    assert("os"@[0] != "de"@[0]);
    assert("host"@[0] != "swap"@[0]);
    assert("kernel"@[0] != "uptime"@[0]);
    assert("kernel"@[0] != "cursor"@[0]);
    assert("kernel"@[0] != "mounts"@[0]);
    assert("kernel"@[0] != "locale"@[0]);
    assert("uptime"@[0] != "cursor"@[0]);
    assert("uptime"@[0] != "mounts"@[0]);
    assert("uptime"@[0] != "locale"@[0]);
    assert("shell"@[0] != "theme"@[0]);
    assert("cursor"@[0] != "mounts"@[0]);
    assert("cursor"@[0] != "locale"@[0]);
    assert("cpu"@[0] != "gpu"@[0]);
    assert("cpu"@[0] != "ram"@[0]);
    assert("gpu"@[0] != "ram"@[0]);
    assert("mounts"@[0] != "locale"@[0]);
}

fn gated(shown: bool, v: &Option<String>) -> (r: Option<String>)
    ensures
        r.deep_view() == gate(shown, *v),
{
    if shown {
        match v {
            Some(x) => {
                let c = chars_of(x.as_str());
                Some(string_of(&c))
            },
            None => None,
        }
    } else {
        None
    }
}

fn literal(s: &str) -> (r: Option<String>)
    ensures
        r.deep_view() == Some(s@),
{
    let c = chars_of(s);
    Some(string_of(&c))
}

/// What the row with the module id `id` shows; see `shown_value`.
pub fn value_of(s: &Settings, v: &ModuleValues, id: &str) -> (r: Option<String>)
    ensures
        r.deep_view() == shown_value(*s, *v, id@),
{
    let idv = chars_of(id);
    let system = s.enabled("swap") || s.enabled("ram");
    if crate::text::equals_str(&idv, "title") {
        gated(s.enabled("title"), &v.title)
    } else if crate::text::equals_str(&idv, "sep") {
        gated(s.enabled("title"), &v.sep)
    } else if crate::text::equals_str(&idv, "os") {
        gated(s.enabled("os"), &v.os)
    } else if crate::text::equals_str(&idv, "host") {
        gated(s.enabled("host"), &v.host)
    } else if crate::text::equals_str(&idv, "kernel") {
        gated(s.enabled("kernel"), &v.kernel)
    } else if crate::text::equals_str(&idv, "uptime") {
        gated(system && s.enabled("uptime"), &v.uptime)
    } else if crate::text::equals_str(&idv, "shell") {
        gated(s.enabled("shell"), &v.shell)
    } else if crate::text::equals_str(&idv, "de") {
        gated(s.enabled("de"), &v.de)
    } else if crate::text::equals_str(&idv, "theme") {
        gated(s.enabled("theme"), &v.theme)
    } else if crate::text::equals_str(&idv, "cursor") {
        gated(s.enabled("cursor"), &v.cursor)
    } else if crate::text::equals_str(&idv, "cpu") {
        gated(s.enabled("cpu"), &v.cpu)
    } else if crate::text::equals_str(&idv, "gpu") {
        gated(s.enabled("gpu"), &v.gpu)
    } else if crate::text::equals_str(&idv, "ram") {
        gated(system && s.enabled("ram"), &v.ram)
    } else if crate::text::equals_str(&idv, "swap") {
        gated(system && s.enabled("swap"), &v.swap)
    } else if crate::text::equals_str(&idv, "mounts") {
        gated(s.enabled("mounts"), &v.mounts)
    } else if crate::text::equals_str(&idv, "locale") {
        gated(s.enabled("locale"), &v.locale)
    } else if crate::text::equals_str(&idv, "palette_sep") {
        if s.enabled("standard_palette") || s.enabled("bright_palette") {
            let mut c: Vec<char> = Vec::new();
            c.push('\n');
            Some(string_of(&c))
        } else {
            None
        }
    } else if crate::text::equals_str(&idv, "standard_palette") {
        if s.enabled("standard_palette") {
            literal(
                "\x1b[40m   \x1b[41m   \x1b[42m   \x1b[43m   \x1b[44m   \x1b[45m   \x1b[46m   \x1b[47m   \x1b[0m",
            )
        } else {
            None
        }
    } else if crate::text::equals_str(&idv, "bright_palette") {
        if s.enabled("bright_palette") {
            literal(
                "\x1b[100m   \x1b[101m   \x1b[102m   \x1b[103m   \x1b[104m   \x1b[105m   \x1b[106m   \x1b[107m   \x1b[0m",
            )
        } else {
            None
        }
    } else {
        None
    }
}

/// The views of rows of a key and a value.
pub open spec fn shown_views(v: Seq<(String, Option<String>)>) -> Seq<(Seq<char>, Option<Seq<char>>)> {
    v.map_values(|r: (String, Option<String>)| (r.0@, r.1.deep_view()))
}

/// Each row of the settings with its key and what it shows, in order.
pub open spec fn shown_rows(s: Settings, v: ModuleValues) -> Seq<(Seq<char>, Option<Seq<char>>)> {
    let rows = string_rows(s.rows@);
    Seq::new(rows.len(), |i: int| (rows[i].1, shown_value(s, v, rows[i].2)))
}

/// Each row of the settings with its key and what it shows, in order.
pub fn info_rows(s: &Settings, v: &ModuleValues) -> (r: Vec<(String, Option<String>)>)
    ensures
        shown_views(r@) == shown_rows(*s, *v),
{
    let mut out: Vec<(String, Option<String>)> = Vec::new();
    let mut i: usize = 0;
    while i < s.rows.len()
        invariant
            0 <= i <= s.rows.len(),
            shown_views(out@) == shown_rows(*s, *v).take(i as int),
        decreases s.rows.len() - i,
    {
        let ghost before = shown_views(out@);
        let key = chars_of(s.rows[i].1.as_str());
        let val = value_of(s, v, s.rows[i].2.as_str());
        out.push((string_of(&key), val));
        assert(shown_views(out@) =~= before.push(shown_rows(*s, *v)[i as int]));
        assert(shown_rows(*s, *v).take(i + 1) =~= shown_rows(*s, *v).take(i as int).push(
            shown_rows(*s, *v)[i as int],
        ));
        i += 1;
    }
    assert(shown_rows(*s, *v).take(s.rows.len() as int) =~= shown_rows(*s, *v));
    out
}

// ----------------------------------------------------------------------
// the screen
// ----------------------------------------------------------------------

/// The key and the line of each line of each shown value, in order.
pub open spec fn entries(rows: Seq<(Seq<char>, Option<Seq<char>>)>) -> Seq<(Seq<char>, Seq<char>)>
    decreases rows.len(),
{
    if rows.len() == 0 {
        seq![]
    } else {
        entries(rows.drop_last()) + match rows.last().1 {
            Some(v) => lines(v).map_values(|l: Seq<char>| (rows.last().0, l)),
            None => seq![],
        }
    }
}

/// What stands left of a value line when the logo has no line for it:
/// spaces as wide as the logo's first line.
pub open spec fn logo_blank(logo_lines: Seq<Seq<char>>) -> Seq<char> {
    if logo_lines.len() > 0 {
        repeat(seq![' '], text_width(logo_lines[0]) as nat)
    } else {
        seq![]
    }
}

/// The dim ellipsis that ends a line cut to the terminal's width.
pub open spec fn ellipsis() -> Seq<char> {
    seq!['\x1b', '[', '4', '9', ';', '2', 'm', '\u{2026}', '\x1b', '[', '0', 'm']
}

/// `s` when its width is within the terminal's, else `cut` and the ellipsis.
pub open spec fn fit_from(s: Seq<char>, width: usize, cut: Seq<char>, w: usize) -> Seq<char> {
    if width > w {
        cut + ellipsis()
    } else {
        s
    }
}

/// `s`, or, when it is wider than the terminal, `s` cut to one column less
/// (wrapping below zero) followed by a
/// dim ellipsis.
pub open spec fn fit(s: Seq<char>, w: usize) -> Seq<char> {
    fit_from(s, text_width(s), truncated(s, w.wrapping_sub(1), seq![]), w)
}

/// A line of the screen from its measured width and, for a line too wide,
/// the text it was cut to; see `fit_from`.
pub fn fit_line(line: &str, line_width: usize, cut: &str, terminal_width: usize) -> (r: String)
    ensures
        r@ == fit_from(line@, line_width, cut@, terminal_width),
{
    if line_width > terminal_width {
        let mut v = chars_of(cut);
        v.push('\x1b');
        v.push('[');
        v.push('4');
        v.push('9');
        v.push(';');
        v.push('2');
        v.push('m');
        v.push('\u{2026}');
        v.push('\x1b');
        v.push('[');
        v.push('0');
        v.push('m');
        string_of(&v)
    } else {
        let v = chars_of(line);
        string_of(&v)
    }
}

/// The `k`-th line of the screen: beside the `k`-th value line the `k`-th
/// logo line (or the blank), the key, the values color, the line and a reset;
/// after the value lines, the rest of the logo.
pub open spec fn screen_line(
    es: Seq<(Seq<char>, Seq<char>)>,
    ll: Seq<Seq<char>>,
    vc: Seq<char>,
    w: usize,
    k: int,
) -> Seq<char> {
    if k < es.len() {
        let logo = if k < ll.len() {
            ll[k]
        } else {
            logo_blank(ll)
        };
        fit(logo + es[k].0 + vc + es[k].1 + seq!['\x1b', '[', '0', 'm'], w)
    } else {
        fit(ll[k], w)
    }
}

/// The lines of the screen: as many as the value lines, or as the logo's
/// lines where the logo is taller.
pub open spec fn screen_lines(
    rows: Seq<(Seq<char>, Option<Seq<char>>)>,
    logo: Seq<char>,
    vc: Seq<char>,
    w: usize,
) -> Seq<Seq<char>> {
    let es = entries(rows);
    let ll = lines(logo);
    let n = if es.len() >= ll.len() {
        es.len()
    } else {
        ll.len()
    };
    Seq::new(n, |k: int| screen_line(es, ll, vc, w, k))
}

/// The lines `ls`, each followed by a newline.
pub open spec fn terminated(ls: Seq<Seq<char>>) -> Seq<char>
    decreases ls.len(),
{
    if ls.len() == 0 {
        seq![]
    } else {
        terminated(ls.drop_last()) + ls.last() + seq!['\n']
    }
}

proof fn lemma_entries_prefix(rows: Seq<(Seq<char>, Option<Seq<char>>)>, i: int)
    requires
        0 <= i <= rows.len(),
    ensures
        entries(rows.take(i)).len() <= entries(rows).len(),
        entries(rows).take(entries(rows.take(i)).len() as int) == entries(rows.take(i)),
    decreases rows.len(),
{
    if i < rows.len() {
        assert(rows.drop_last().take(i) == rows.take(i));
        lemma_entries_prefix(rows.drop_last(), i);
        let a = entries(rows.drop_last());
        let b = entries(rows);
        assert(b.take(a.len() as int) == a);
    } else {
        assert(rows.take(i) == rows);
    }
}

fn push_fit(out: &mut Vec<char>, line: &Vec<char>, w: usize)
    ensures
        final(out)@ == old(out)@ + fit(line@, w) + seq!['\n'],
{
    let s = string_of(line);
    let width = measure_width(s.as_str());
    let cut = if width > w {
        truncate(s.as_str(), w.wrapping_sub(1), "")
    } else {
        String::new()
    };
    assert(""@ =~= Seq::<char>::empty()) by {
        reveal_strlit("");
    }
    assert(width > w ==> cut@ == truncated(line@, w.wrapping_sub(1), seq![]));
    let shown = fit_line(s.as_str(), width, cut.as_str(), w);
    extend_str(out, shown.as_str());
    out.push('\n');
}

/// The screen: the value lines of the rows beside the logo's lines, then the
/// rest of the logo, every line cut to `terminal_width` columns and ended by
/// a newline; see `screen_lines`.
pub fn render(
    rows: &Vec<(String, Option<String>)>,
    logo: &str,
    values_color: &str,
    terminal_width: usize,
) -> (r: String)
    ensures
        r@ == terminated(screen_lines(shown_views(rows@), logo@, values_color@, terminal_width)),
{
    let ghost rv = shown_views(rows@);
    let ghost es = entries(rv);
    let lc = chars_of(logo);
    let ll = lines_of(&lc);
    let ghost llv = views(ll@);
    let vc = chars_of(values_color);
    let ghost sl = screen_lines(rv, logo@, values_color@, terminal_width);
    let mut blank: Vec<char> = Vec::new();
    if ll.len() > 0 {
        let first = string_of(&ll[0]);
        let n = measure_width(first.as_str());
        let mut sp: Vec<char> = Vec::new();
        sp.push(' ');
        crate::text::push_repeat(&mut blank, &sp, n);
    }
    assert(blank@ == logo_blank(llv));
    let mut out: Vec<char> = Vec::new();
    let mut li: usize = 0;
    let ghost mut k: int = 0;
    let mut i: usize = 0;
    while i < rows.len()
        invariant
            0 <= i <= rows.len(),
            rv == shown_views(rows@),
            es == entries(rv),
            llv == views(ll@),
            llv == lines(logo@),
            vc@ == values_color@,
            blank@ == logo_blank(llv),
            sl == screen_lines(rv, logo@, values_color@, terminal_width),
            k == entries(rv.take(i as int)).len(),
            k <= es.len(),
            es.take(k) == entries(rv.take(i as int)),
            li as int == if k < llv.len() {
                k
            } else {
                llv.len() as int
            },
            out@ == terminated(sl.take(k)),
        decreases rows.len() - i,
    {
        proof {
            lemma_entries_prefix(rv, i + 1);
            assert(rv.take(i + 1).drop_last() == rv.take(i as int));
            assert(rv.take(i + 1).last() == rv[i as int]);
        }
        match &rows[i].1 {
            Some(v) => {
                let vchars = chars_of(v.as_str());
                let vl = lines_of(&vchars);
                let key = chars_of(rows[i].0.as_str());
                let ghost mapped = lines(v@).map_values(|l: Seq<char>| (rv[i as int].0, l));
                assert(entries(rv.take(i + 1)) == entries(rv.take(i as int)) + mapped);
                assert(views(vl@).len() == vl@.len());
                proof {
                    let kn = entries(rv.take(i + 1)).len() as int;
                    assert(kn == k + mapped.len());
                    assert forall|q: int| 0 <= q < vl.len() implies es[k + q] == #[trigger] mapped[q] by {
                        assert(es.take(kn)[k + q] == es[k + q]);
                        assert((entries(rv.take(i as int)) + mapped)[k + q] == mapped[q]);
                    }
                }
                let mut j: usize = 0;
                while j < vl.len()
                    invariant
                        0 <= j <= vl.len(),
                        views(vl@) == lines(v@),
                        mapped.len() == vl.len(),
                        mapped == lines(v@).map_values(|l: Seq<char>| (rv[i as int].0, l)),
                        key@ == rv[i as int].0,
                        rv == shown_views(rows@),
                        es == entries(rv),
                        llv == views(ll@),
                        llv == lines(logo@),
                        vc@ == values_color@,
                        blank@ == logo_blank(llv),
                        sl == screen_lines(rv, logo@, values_color@, terminal_width),
                        k + vl.len() <= es.len(),
                        forall|q: int| 0 <= q < vl.len() ==> es[k + q] == #[trigger] mapped[q],
                        li as int == if k + j < llv.len() {
                            k + j
                        } else {
                            llv.len() as int
                        },
                        out@ == terminated(sl.take(k + j)),
                    decreases vl.len() - j,
                {
                    let mut line: Vec<char> = Vec::new();
                    if li < ll.len() {
                        extend(&mut line, &ll[li]);
                    } else {
                        extend(&mut line, &blank);
                    }
                    extend(&mut line, &key);
                    extend(&mut line, &vc);
                    extend(&mut line, &vl[j]);
                    line.push('\x1b');
                    line.push('[');
                    line.push('0');
                    line.push('m');
                    proof {
                        assert(es[k + j] == mapped[j as int]);
                        assert(mapped[j as int] == (rv[i as int].0, vl@[j as int]@));
                        assert(sl[k + j] == screen_line(es, llv, values_color@, terminal_width, k + j));
                        assert(sl.take(k + j + 1).drop_last() == sl.take(k + j));
                        assert(sl.take(k + j + 1).last() == sl[k + j]);
                        let logo_part = if k + j < llv.len() {
                            llv[k + j]
                        } else {
                            logo_blank(llv)
                        };
                        if li < ll.len() {
                            assert(ll@[li as int]@ == llv[k + j]);
                        }
                        assert(line@ == logo_part + es[k + j].0 + values_color@ + es[k + j].1 + seq![
                            '\x1b',
                            '[',
                            '0',
                            'm',
                        ]);
                    }
                    push_fit(&mut out, &line, terminal_width);
                    proof {
                        assert(out@ == terminated(sl.take(k + j + 1)));
                    }
                    if li < ll.len() {
                        li += 1;
                    }
                    j += 1;
                }
                proof {
                    k = k + vl.len();
                    assert(es.take(k) =~= entries(rv.take(i + 1)));
                }
            },
            None => {
                assert(entries(rv.take(i + 1)) == entries(rv.take(i as int)));
            },
        }
        i += 1;
    }
    assert(rv.take(rows.len() as int) == rv);
    assert(k == es.len());
    let mut q: usize = li;
    while q < ll.len()
        invariant
            0 <= q <= ll.len(),
            llv == views(ll@),
            llv == lines(logo@),
            es == entries(rv),
            sl == screen_lines(rv, logo@, values_color@, terminal_width),
            q >= es.len() || q == llv.len(),
            q as int == if es.len() < llv.len() && q >= es.len() {
                q as int
            } else {
                llv.len() as int
            },
            out@ == terminated(sl.take(if es.len() >= q {
                es.len() as int
            } else {
                q as int
            })),
        decreases ll.len() - q,
    {
        proof {
            assert(sl[q as int] == screen_line(es, llv, values_color@, terminal_width, q as int));
            assert(sl.take(q + 1).drop_last() == sl.take(q as int));
        }
        push_fit(&mut out, &ll[q], terminal_width);
        q += 1;
    }
    assert(sl.take(sl.len() as int) == sl);
    string_of(&out)
}

/// The screen has a line for every value line, and the logo is shown whole:
/// as many lines as the taller of the two, the value lines first beside the logo.
pub proof fn screen_is_as_tall_as_its_parts(
    rows: Seq<(Seq<char>, Option<Seq<char>>)>,
    logo: Seq<char>,
    vc: Seq<char>,
    w: usize,
)
    ensures
        screen_lines(rows, logo, vc, w).len() >= entries(rows).len(),
        screen_lines(rows, logo, vc, w).len() >= lines(logo).len(),
        screen_lines(rows, logo, vc, w).len() == entries(rows).len() || screen_lines(
            rows,
            logo,
            vc,
            w,
        ).len() == lines(logo).len(),
{
}

} // verus!
