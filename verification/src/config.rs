//! The configuration of the fetch and the settings it is turned into: the
//! modules in their order with their keys, the colors as escape sequences,
//! the usage thresholds, and the padded logos. A configuration that the fetch
//! cannot build from is refused, with the first problem found.
use vstd::prelude::*;
use vstd::utf8::encode_utf8;
use crate::color::{color_code, parse_x1b, ColorError};
use crate::ident::{const_name, identifier, is_identifier, logo_const_name};
use crate::literal::{
    key_suffix_reads_as_reset, lemma_plain_add, plain, plain_prefix_reads_as_itself,
    plain_text_reads_as_itself, unescape, unescape_str,
};
use crate::logo::{color_bytes, colorize, colorize_logo, pad_logo, padded, PaddingConfig};
use crate::order::{row_view, row_views, rows_sorted, sort_rows, RowChars, RowView};
use crate::text::{chars_of, equals_str, extend, string_of};

verus! {

/// The colors of the output, each an escape sequence.
pub struct Palette {
    pub title: String,
    pub title_sep: String,
    pub keys: String,
    pub separator: String,
    pub values: String,
    pub mountpoints: String,
    pub low: String,
    pub medium: String,
    pub high: String,
}

/// Usage percentages from which a gauge shows the medium and the high color.
#[derive(Debug, Clone, Copy, PartialEq, Eq)]
pub struct Thresholds {
    pub medium: usize,
    pub high: usize,
}

/// A module of the configuration: its id, whether it is shown, and its key.
pub struct ModuleConfig {
    pub id: String,
    pub enabled: bool,
    pub key: String,
}

/// The colors of the configuration, as written there.
pub struct ColorsConfig {
    pub title: String,
    pub title_sep: String,
    pub keys: String,
    pub separator: String,
    pub values: String,
    pub mountpoints: String,
    pub low: String,
    pub medium: String,
    pub high: String,
}

/// A logo of the configuration: its id and the colors its marks select.
pub struct LogoConfig {
    pub id: String,
    pub colors: Vec<String>,
}

/// The configuration of the fetch.
pub struct Config {
    pub modules: Vec<ModuleConfig>,
    pub title_separator_char: String,
    pub ram: Thresholds,
    pub swap: Thresholds,
    pub mounts: Thresholds,
    pub colors: ColorsConfig,
    pub logo_enabled: bool,
    pub padding: PaddingConfig,
    pub logos: Vec<LogoConfig>,
}

/// A gauge with usage thresholds.
#[derive(Debug, Clone, Copy, PartialEq, Eq)]
pub enum Gauge {
    Ram,
    Swap,
    Mounts,
}

/// Why a configuration was refused.
#[derive(Debug, Clone, Copy, PartialEq, Eq)]
pub enum ConfigError {
    /// A color of the palette is not valid.
    Color(ColorError),
    /// The module at this position of the configuration has an unknown id.
    UnknownModule(usize),
    /// The medium threshold of the gauge is above 100%.
    MediumAbove100(Gauge),
    /// The high threshold of the gauge is above 100%.
    HighAbove100(Gauge),
    /// The medium threshold of the gauge is above its high threshold.
    MediumAboveHigh(Gauge),
    /// A color that the logo at this position of the configuration selects is not valid.
    LogoColor(usize, ColorError),
    /// The module at this position repeats the id of an earlier one.
    DuplicateModule(usize),
    /// No module has the id at this position of `module_name`.
    MissingModule(usize),
    /// The key of the module at this position, as the settings write it, is
    /// not the body of a valid string literal.
    InvalidKey(usize),
    /// The title separator is not the body of a valid string literal.
    InvalidTitleSeparator,
    /// The padded text of the logo at this position is not the body of a
    /// valid string literal.
    InvalidLogo(usize),
    /// The id of the logo at this position is not the body of a valid string
    /// literal.
    InvalidLogoId(usize),
    /// The id of the logo at this position names no constant: in upper case
    /// and followed by `_LOGO`, it is not an identifier.
    LogoName(usize),
    /// The id of the logo at this position, in upper case, is that of an
    /// earlier logo, so both would name the same constant.
    DuplicateLogo(usize),
    /// The configuration lists no logo.
    NoLogo,
}

/// The number of modules; the configuration lists each exactly once.
pub const MODULE_COUNT: usize = 17;

/// The ids of the modules.
pub open spec fn module_names() -> Seq<Seq<char>> {
    seq![
        "title"@,
        "os"@,
        "host"@,
        "kernel"@,
        "uptime"@,
        "shell"@,
        "de"@,
        "theme"@,
        "cursor"@,
        "cpu"@,
        "gpu"@,
        "ram"@,
        "swap"@,
        "mounts"@,
        "locale"@,
        "standard_palette"@,
        "bright_palette"@,
    ]
}

/// The id of the `k`-th module.
pub fn module_name(k: usize) -> (s: &'static str)
    requires
        k < MODULE_COUNT,
    ensures
        s@ == module_names()[k as int],
{
    match k {
        0 => "title",
        1 => "os",
        2 => "host",
        3 => "kernel",
        4 => "uptime",
        5 => "shell",
        6 => "de",
        7 => "theme",
        8 => "cursor",
        9 => "cpu",
        10 => "gpu",
        11 => "ram",
        12 => "swap",
        13 => "mounts",
        14 => "locale",
        15 => "standard_palette",
        _ => "bright_palette",
    }
}

/// Whether `id` is the id of a module.
pub open spec fn known_module(id: Seq<char>) -> bool {
    exists|k: int| 0 <= k < module_names().len() && module_names()[k] == id
}

fn is_known(id: &Vec<char>) -> (b: bool)
    ensures
        b == known_module(id@),
{
    let mut k: usize = 0;
    while k < MODULE_COUNT
        invariant
            0 <= k <= MODULE_COUNT,
            forall|j: int| 0 <= j < k ==> module_names()[j] != id@,
        decreases MODULE_COUNT - k,
    {
        if equals_str(id, module_name(k)) {
            return true;
        }
        k += 1;
    }
    false
}

/// The position of the first module whose id is unknown.
pub open spec fn first_unknown(ms: Seq<ModuleConfig>) -> Option<int>
    decreases ms.len(),
{
    if ms.len() == 0 {
        None
    } else {
        match first_unknown(ms.drop_last()) {
            Some(i) => Some(i),
            None => if !known_module(ms.last().id@) {
                Some(ms.len() - 1)
            } else {
                None
            },
        }
    }
}

/// Whether the `j`-th module repeats the id of an earlier one.
pub open spec fn repeats_earlier(ms: Seq<ModuleConfig>, j: int) -> bool {
    exists|i: int| 0 <= i < j && ms[i].id@ == ms[j].id@
}

/// The position of the first module that repeats the id of an earlier one.
pub open spec fn first_duplicate(ms: Seq<ModuleConfig>) -> Option<int>
    decreases ms.len(),
{
    if ms.len() == 0 {
        None
    } else {
        match first_duplicate(ms.drop_last()) {
            Some(i) => Some(i),
            None => if repeats_earlier(ms, ms.len() - 1) {
                Some(ms.len() - 1)
            } else {
                None
            },
        }
    }
}

/// Whether some module has the id `name`.
pub open spec fn has_module(ms: Seq<ModuleConfig>, name: Seq<char>) -> bool {
    exists|i: int| 0 <= i < ms.len() && ms[i].id@ == name
}

/// The position, among the first `n` module ids, of the first that no module has.
pub open spec fn first_missing(ms: Seq<ModuleConfig>, n: nat) -> Option<int>
    decreases n,
{
    if n == 0 {
        None
    } else {
        match first_missing(ms, (n - 1) as nat) {
            Some(k) => Some(k),
            None => if !has_module(ms, module_names()[n - 1]) {
                Some(n - 1)
            } else {
                None
            },
        }
    }
}

/// The error of a palette color, if it is not valid.
pub open spec fn color_err(c: Seq<char>) -> Option<ConfigError> {
    match color_code(encode_utf8(c)) {
        Ok(_) => None,
        Err(e) => Some(ConfigError::Color(e)),
    }
}

/// The error of the thresholds of a gauge, if they are not valid.
pub open spec fn threshold_err(t: Thresholds, g: Gauge) -> Option<ConfigError> {
    if t.medium > 100 {
        Some(ConfigError::MediumAbove100(g))
    } else if t.high > 100 {
        Some(ConfigError::HighAbove100(g))
    } else if t.medium > t.high {
        Some(ConfigError::MediumAboveHigh(g))
    } else {
        None
    }
}

/// The error of the first logo whose text selects a color that is not valid.
pub open spec fn logo_err(ls: Seq<LogoConfig>, texts: Seq<Seq<char>>) -> Option<ConfigError>
    decreases ls.len(),
{
    if ls.len() == 0 {
        None
    } else {
        match logo_err(ls.drop_last(), texts) {
            Some(e) => Some(e),
            None => match colorize(texts[ls.len() - 1], color_bytes(ls.last().colors@)) {
                Ok(_) => None,
                Err(e) => Some(ConfigError::LogoColor((ls.len() - 1) as usize, e)),
            },
        }
    }
}

/// `a` if there is one, else `b`.
pub open spec fn either(a: Option<ConfigError>, b: Option<ConfigError>) -> Option<ConfigError> {
    if a is Some {
        a
    } else {
        b
    }
}

/// What the body `s` of a string literal denotes; empty where it is not valid.
pub open spec fn literal_text(s: Seq<char>) -> Seq<char> {
    match unescape(s) {
        Some(t) => t,
        None => seq![],
    }
}

/// What each of the string literal bodies `ts` denotes.
pub open spec fn literal_texts(ts: Seq<Seq<char>>) -> Seq<Seq<char>> {
    ts.map_values(|t: Seq<char>| literal_text(t))
}

/// The position of the first of `ts` that is not the body of a valid string literal.
pub open spec fn first_invalid(ts: Seq<Seq<char>>) -> Option<int>
    decreases ts.len(),
{
    if ts.len() == 0 {
        None
    } else {
        match first_invalid(ts.drop_last()) {
            Some(i) => Some(i),
            None => if unescape(ts.last()) is None {
                Some(ts.len() - 1)
            } else {
                None
            },
        }
    }
}

/// The escape sequence of the color written `c`; empty where it is not valid.
pub open spec fn code_of(c: Seq<char>) -> Seq<char> {
    match color_code(encode_utf8(c)) {
        Ok(t) => t,
        Err(_) => seq![],
    }
}

/// The key of each module, as the settings write it.
pub open spec fn module_keys(ms: Seq<ModuleConfig>, keys: Seq<char>, sep: Seq<char>) -> Seq<
    Seq<char>,
> {
    Seq::new(ms.len(), |i: int| shown_key(ms[i], keys, sep))
}

/// The id of each logo.
pub open spec fn logo_ids(ls: Seq<LogoConfig>) -> Seq<Seq<char>> {
    Seq::new(ls.len(), |i: int| ls[i].id@)
}

/// The colored and padded text of each logo, as the settings write it.
pub open spec fn logo_arts(ls: Seq<LogoConfig>, texts: Seq<Seq<char>>, pad: PaddingConfig) -> Seq<
    Seq<char>,
> {
    Seq::new(ls.len(), |i: int| logo_art(ls[i], texts[i], pad))
}

/// The name of the constant of each logo.
pub open spec fn logo_names(ls: Seq<LogoConfig>) -> Seq<Seq<char>> {
    Seq::new(ls.len(), |i: int| const_name(ls[i].id@))
}

/// The position of the first of `ts` that is not an identifier.
pub open spec fn first_non_identifier(ts: Seq<Seq<char>>) -> Option<int>
    decreases ts.len(),
{
    if ts.len() == 0 {
        None
    } else {
        match first_non_identifier(ts.drop_last()) {
            Some(i) => Some(i),
            None => if !is_identifier(ts.last()) {
                Some(ts.len() - 1)
            } else {
                None
            },
        }
    }
}

/// The position of the first of `ts` that equals an earlier one.
pub open spec fn first_repeat(ts: Seq<Seq<char>>) -> Option<int>
    decreases ts.len(),
{
    if ts.len() == 0 {
        None
    } else {
        match first_repeat(ts.drop_last()) {
            Some(i) => Some(i),
            None => if exists|i: int| 0 <= i < ts.len() - 1 && ts[i] == ts.last() {
                Some(ts.len() - 1)
            } else {
                None
            },
        }
    }
}

proof fn lemma_first_non_identifier_prefix(ts: Seq<Seq<char>>, n: int)
    requires
        0 < n <= ts.len(),
        first_non_identifier(ts.take(n)) == Some(n - 1),
    ensures
        first_non_identifier(ts) == Some(n - 1),
    decreases ts.len(),
{
    if n < ts.len() {
        assert(ts.drop_last().take(n) == ts.take(n));
        lemma_first_non_identifier_prefix(ts.drop_last(), n);
    } else {
        assert(ts.take(n) == ts);
    }
}

proof fn lemma_first_repeat_prefix(ts: Seq<Seq<char>>, n: int)
    requires
        0 < n <= ts.len(),
        first_repeat(ts.take(n)) == Some(n - 1),
    ensures
        first_repeat(ts) == Some(n - 1),
    decreases ts.len(),
{
    if n < ts.len() {
        assert(ts.drop_last().take(n) == ts.take(n));
        lemma_first_repeat_prefix(ts.drop_last(), n);
    } else {
        assert(ts.take(n) == ts);
    }
}

fn names_of(ls: &Vec<LogoConfig>) -> (out: Vec<Vec<char>>)
    ensures
        crate::text::views(out@) == logo_names(ls@),
{
    let mut out: Vec<Vec<char>> = Vec::new();
    let mut i: usize = 0;
    while i < ls.len()
        invariant
            0 <= i <= ls.len(),
            crate::text::views(out@) == logo_names(ls@).take(i as int),
        decreases ls.len() - i,
    {
        let n = logo_const_name(ls[i].id.as_str());
        let ghost before = crate::text::views(out@);
        out.push(n);
        assert(crate::text::views(out@) =~= before.push(logo_names(ls@)[i as int]));
        assert(logo_names(ls@).take(i + 1) =~= logo_names(ls@).take(i as int).push(
            logo_names(ls@)[i as int],
        ));
        i += 1;
    }
    assert(logo_names(ls@).take(ls.len() as int) =~= logo_names(ls@));
    out
}

fn find_non_identifier(ts: &Vec<Vec<char>>) -> (r: Option<usize>)
    ensures
        match r {
            Some(i) => first_non_identifier(crate::text::views(ts@)) == Some(i as int),
            None => first_non_identifier(crate::text::views(ts@)) is None,
        },
{
    let ghost tv = crate::text::views(ts@);
    let mut i: usize = 0;
    while i < ts.len()
        invariant
            0 <= i <= ts.len(),
            tv == crate::text::views(ts@),
            first_non_identifier(tv.take(i as int)) is None,
        decreases ts.len() - i,
    {
        assert(tv.take(i + 1).drop_last() == tv.take(i as int));
        assert(tv.take(i + 1).last() == ts@[i as int]@);
        if !identifier(&ts[i]) {
            proof {
                lemma_first_non_identifier_prefix(tv, i + 1);
            }
            return Some(i);
        }
        i += 1;
    }
    assert(tv.take(ts.len() as int) == tv);
    None
}

fn find_repeat(ts: &Vec<Vec<char>>) -> (r: Option<usize>)
    ensures
        match r {
            Some(i) => first_repeat(crate::text::views(ts@)) == Some(i as int),
            None => first_repeat(crate::text::views(ts@)) is None,
        },
{
    let ghost tv = crate::text::views(ts@);
    let mut j: usize = 0;
    while j < ts.len()
        invariant
            0 <= j <= ts.len(),
            tv == crate::text::views(ts@),
            first_repeat(tv.take(j as int)) is None,
        decreases ts.len() - j,
    {
        let ghost pre = tv.take(j + 1);
        assert(pre.drop_last() == tv.take(j as int));
        assert(pre.last() == ts@[j as int]@);
        let mut i: usize = 0;
        let mut found = false;
        while i < j && !found
            invariant
                0 <= i <= j < ts.len(),
                tv == crate::text::views(ts@),
                found ==> i < j && ts@[i as int]@ == ts@[j as int]@,
                forall|k: int| 0 <= k < i ==> ts@[k]@ != ts@[j as int]@,
            decreases j - i, (if found { 0int } else { 1int }),
        {
            if crate::text::same_chars(&ts[i], &ts[j]) {
                found = true;
            } else {
                i += 1;
            }
        }
        proof {
            if found {
                assert(pre[i as int] == ts@[i as int]@);
            } else {
                assert forall|k: int| 0 <= k < pre.len() - 1 implies pre[k] != pre.last() by {
                    assert(pre[k] == ts@[k]@);
                }
            }
        }
        if found {
            proof {
                lemma_first_repeat_prefix(tv, j + 1);
            }
            return Some(j);
        }
        j += 1;
    }
    assert(tv.take(ts.len() as int) == tv);
    None
}

/// The first problem met while a configuration whose logos have the texts
/// `texts` is read, in the order the fetch checks them: the key and separator
/// colors, the module ids, the other colors, the thresholds of memory, swap
/// and mounts, the logo colors.
#[verifier::opaque]
pub open spec fn read_error(c: Config, texts: Seq<Seq<char>>) -> Option<ConfigError> {
    either(
        color_err(c.colors.keys@),
        either(
            color_err(c.colors.separator@),
            either(
                match first_unknown(c.modules@) {
                    Some(i) => Some(ConfigError::UnknownModule(i as usize)),
                    None => None,
                },
                either(
                    color_err(c.colors.values@),
                    either(
                        color_err(c.colors.title@),
                        either(
                            color_err(c.colors.title_sep@),
                            either(
                                color_err(c.colors.mountpoints@),
                                either(
                                    color_err(c.colors.low@),
                                    either(
                                        color_err(c.colors.medium@),
                                        either(
                                            color_err(c.colors.high@),
                                            either(
                                                threshold_err(c.ram, Gauge::Ram),
                                                either(
                                                    threshold_err(c.swap, Gauge::Swap),
                                                    either(
                                                        threshold_err(c.mounts, Gauge::Mounts),
                                                        logo_err(c.logos@, texts),
                                                    ),
                                                ),
                                            ),
                                        ),
                                    ),
                                ),
                            ),
                        ),
                    ),
                ),
            ),
        ),
    )
}

/// The first problem of the settings that a configuration read without one
/// is written into: a repeated module, a missing module, a module key, the
/// title separator, a logo's text or a logo's id that is not the body of a
/// valid string literal, a logo id that names no constant, two logo ids that
/// name the same constant, and no logo at all.
#[verifier::opaque]
pub open spec fn written_error(c: Config, texts: Seq<Seq<char>>) -> Option<ConfigError> {
    let ms = c.modules@;
    let keys = module_keys(ms, code_of(c.colors.keys@), code_of(c.colors.separator@));
    either(
        match first_duplicate(ms) {
            Some(i) => Some(ConfigError::DuplicateModule(i as usize)),
            None => None,
        },
        either(
            match first_missing(ms, MODULE_COUNT as nat) {
                Some(k) => Some(ConfigError::MissingModule(k as usize)),
                None => None,
            },
            either(
                match first_invalid(keys) {
                    Some(i) => Some(ConfigError::InvalidKey(i as usize)),
                    None => None,
                },
                either(
                    if unescape(c.title_separator_char@) is None {
                        Some(ConfigError::InvalidTitleSeparator)
                    } else {
                        None
                    },
                    either(
                        match first_invalid(logo_arts(c.logos@, texts, c.padding)) {
                            Some(i) => Some(ConfigError::InvalidLogo(i as usize)),
                            None => None,
                        },
                        either(
                            match first_invalid(logo_ids(c.logos@)) {
                                Some(i) => Some(ConfigError::InvalidLogoId(i as usize)),
                                None => None,
                            },
                            either(
                                match first_non_identifier(logo_names(c.logos@)) {
                                    Some(i) => Some(ConfigError::LogoName(i as usize)),
                                    None => None,
                                },
                                either(
                                    match first_repeat(logo_names(c.logos@)) {
                                        Some(i) => Some(ConfigError::DuplicateLogo(i as usize)),
                                        None => None,
                                    },
                                    if c.logos@.len() == 0 {
                                        Some(ConfigError::NoLogo)
                                    } else {
                                        None
                                    },
                                ),
                            ),
                        ),
                    ),
                ),
            ),
        ),
    )
}

/// The first problem of a configuration whose logos have the texts `texts`:
/// the first met while it is read, else the first of the settings it is
/// written into.
pub open spec fn config_error(c: Config, texts: Seq<Seq<char>>) -> Option<ConfigError> {
    either(read_error(c, texts), written_error(c, texts))
}

proof fn lemma_first_invalid_prefix(ts: Seq<Seq<char>>, n: int)
    requires
        0 < n <= ts.len(),
        first_invalid(ts.take(n)) == Some(n - 1),
    ensures
        first_invalid(ts) == Some(n - 1),
    decreases ts.len(),
{
    if n < ts.len() {
        assert(ts.drop_last().take(n) == ts.take(n));
        lemma_first_invalid_prefix(ts.drop_last(), n);
    } else {
        assert(ts.take(n) == ts);
    }
}

proof fn lemma_all_valid(ts: Seq<Seq<char>>)
    requires
        first_invalid(ts) is None,
    ensures
        forall|i: int| 0 <= i < ts.len() ==> unescape(#[trigger] ts[i]) is Some,
    decreases ts.len(),
{
    if ts.len() > 0 {
        lemma_all_valid(ts.drop_last());
        assert forall|i: int| 0 <= i < ts.len() implies unescape(#[trigger] ts[i]) is Some by {
            if i < ts.len() - 1 {
                assert(ts.drop_last()[i] == ts[i]);
            }
        }
    }
}

/// What each of `ts`, bodies of string literals, denotes; or the position of
/// the first that is not valid.
fn unescape_all(ts: &Vec<String>) -> (r: Result<Vec<String>, usize>)
    ensures
        match r {
            Ok(v) => first_invalid(text_views(ts@)) is None && text_views(v@) == literal_texts(
                text_views(ts@),
            ),
            Err(i) => first_invalid(text_views(ts@)) == Some(i as int),
        },
{
    let ghost tv = text_views(ts@);
    let mut out: Vec<String> = Vec::new();
    let mut i: usize = 0;
    while i < ts.len()
        invariant
            0 <= i <= ts.len(),
            tv == text_views(ts@),
            first_invalid(tv.take(i as int)) is None,
            text_views(out@) == literal_texts(tv.take(i as int)),
        decreases ts.len() - i,
    {
        assert(tv.take(i + 1).drop_last() == tv.take(i as int));
        assert(tv.take(i + 1).last() == tv[i as int]);
        assert(tv[i as int] == ts@[i as int]@);
        match unescape_str(ts[i].as_str()) {
            None => {
                proof {
                    lemma_first_invalid_prefix(tv, i + 1);
                }
                return Err(i);
            },
            Some(t) => {
                let ghost before = text_views(out@);
                out.push(t);
                assert(text_views(out@) =~= before.push(literal_text(tv[i as int])));
                assert(literal_texts(tv.take(i + 1)) =~= literal_texts(tv.take(i as int)).push(
                    literal_text(tv[i as int]),
                ));
            },
        }
        i += 1;
    }
    assert(tv.take(ts.len() as int) == tv);
    Ok(out)
}

fn find_unknown(ms: &Vec<ModuleConfig>) -> (r: Option<usize>)
    ensures
        match r {
            Some(i) => first_unknown(ms@) == Some(i as int),
            None => first_unknown(ms@) is None,
        },
{
    let mut i: usize = 0;
    while i < ms.len()
        invariant
            0 <= i <= ms.len(),
            first_unknown(ms@.take(i as int)) is None,
        decreases ms.len() - i,
    {
        assert(ms@.take(i + 1).drop_last() == ms@.take(i as int));
        let id = chars_of(ms[i].id.as_str());
        if !is_known(&id) {
            proof {
                lemma_first_unknown_prefix(ms@, i as int + 1);
            }
            return Some(i);
        }
        i += 1;
    }
    assert(ms@.take(ms.len() as int) == ms@);
    None
}

proof fn lemma_first_unknown_prefix(ms: Seq<ModuleConfig>, n: int)
    requires
        0 < n <= ms.len(),
        first_unknown(ms.take(n)) == Some(n - 1),
    ensures
        first_unknown(ms) == Some(n - 1),
    decreases ms.len(),
{
    if n < ms.len() {
        assert(ms.drop_last().take(n) == ms.take(n));
        lemma_first_unknown_prefix(ms.drop_last(), n);
    } else {
        assert(ms.take(n) == ms);
    }
}

proof fn lemma_first_duplicate_prefix(ms: Seq<ModuleConfig>, n: int)
    requires
        0 < n <= ms.len(),
        first_duplicate(ms.take(n)) == Some(n - 1),
    ensures
        first_duplicate(ms) == Some(n - 1),
    decreases ms.len(),
{
    if n < ms.len() {
        assert(ms.drop_last().take(n) == ms.take(n));
        lemma_first_duplicate_prefix(ms.drop_last(), n);
    } else {
        assert(ms.take(n) == ms);
    }
}

fn find_duplicate(ms: &Vec<ModuleConfig>) -> (r: Option<usize>)
    ensures
        match r {
            Some(i) => first_duplicate(ms@) == Some(i as int),
            None => first_duplicate(ms@) is None,
        },
{
    let mut j: usize = 0;
    while j < ms.len()
        invariant
            0 <= j <= ms.len(),
            first_duplicate(ms@.take(j as int)) is None,
        decreases ms.len() - j,
    {
        let ghost pre = ms@.take(j + 1);
        assert(pre.drop_last() == ms@.take(j as int));
        let idj = chars_of(ms[j].id.as_str());
        let mut i: usize = 0;
        let mut found = false;
        while i < j && !found
            invariant
                0 <= i <= j < ms.len(),
                idj@ == ms@[j as int].id@,
                found ==> i < j && ms@[i as int].id@ == ms@[j as int].id@,
                forall|k: int| 0 <= k < i ==> ms@[k].id@ != ms@[j as int].id@,
            decreases j - i, (if found { 0int } else { 1int }),
        {
            let idi = chars_of(ms[i].id.as_str());
            if same_chars_vec(&idi, &idj) {
                found = true;
            } else {
                i += 1;
            }
        }
        proof {
            if found {
                assert(pre[i as int] == ms@[i as int] && pre[j as int] == ms@[j as int]);
                assert(repeats_earlier(pre, j as int));
            } else {
                assert(i == j);
                if repeats_earlier(pre, j as int) {
                    let k = choose|k: int| 0 <= k < j && pre[k].id@ == pre[j as int].id@;
                    assert(pre[k] == ms@[k]);
                }
            }
        }
        if found {
            proof {
                lemma_first_duplicate_prefix(ms@, j as int + 1);
            }
            return Some(j);
        }
        j += 1;
    }
    assert(ms@.take(ms.len() as int) == ms@);
    None
}

fn same_chars_vec(a: &Vec<char>, b: &Vec<char>) -> (r: bool)
    ensures
        r == (a@ == b@),
{
    crate::text::same_chars(a, b)
}

fn has_module_exec(ms: &Vec<ModuleConfig>, name: &str) -> (b: bool)
    ensures
        b == has_module(ms@, name@),
{
    let mut i: usize = 0;
    while i < ms.len()
        invariant
            0 <= i <= ms.len(),
            forall|k: int| 0 <= k < i ==> ms@[k].id@ != name@,
        decreases ms.len() - i,
    {
        let id = chars_of(ms[i].id.as_str());
        if equals_str(&id, name) {
            return true;
        }
        i += 1;
    }
    false
}

proof fn lemma_first_missing_found(ms: Seq<ModuleConfig>, k: nat, n: nat)
    requires
        k < n,
        first_missing(ms, (k + 1) as nat) == Some(k as int),
    ensures
        first_missing(ms, n) == Some(k as int),
    decreases n,
{
    if n > k + 1 {
        lemma_first_missing_found(ms, k, (n - 1) as nat);
    }
}

fn find_missing(ms: &Vec<ModuleConfig>) -> (r: Option<usize>)
    ensures
        match r {
            Some(k) => first_missing(ms@, MODULE_COUNT as nat) == Some(k as int),
            None => first_missing(ms@, MODULE_COUNT as nat) is None,
        },
{
    let mut k: usize = 0;
    while k < MODULE_COUNT
        invariant
            0 <= k <= MODULE_COUNT,
            first_missing(ms@, k as nat) is None,
        decreases MODULE_COUNT - k,
    {
        if !has_module_exec(ms, module_name(k)) {
            proof {
                lemma_first_missing_found(ms@, k as nat, MODULE_COUNT as nat);
            }
            return Some(k);
        }
        k += 1;
    }
    None
}

/// Thresholds are refused exactly when one is above 100% or the medium one is
/// above the high one: medium <= high <= 100 is always accepted, 100 included.
pub proof fn thresholds_up_to_100_are_accepted(t: Thresholds, g: Gauge)
    ensures
        threshold_err(t, g) is None <==> t.medium <= t.high && t.high <= 100,
        t.medium > 100 ==> threshold_err(t, g) == Some(ConfigError::MediumAbove100(g)),
        t.medium <= 100 && t.high > 100 ==> threshold_err(t, g) == Some(
            ConfigError::HighAbove100(g),
        ),
{
}

fn check_thresholds(t: Thresholds, g: Gauge) -> (r: Option<ConfigError>)
    ensures
        r == threshold_err(t, g),
{
    if t.medium > 100 {
        Some(ConfigError::MediumAbove100(g))
    } else if t.high > 100 {
        Some(ConfigError::HighAbove100(g))
    } else if t.medium > t.high {
        Some(ConfigError::MediumAboveHigh(g))
    } else {
        None
    }
}

// ----------------------------------------------------------------------
// rows
// ----------------------------------------------------------------------

/// The key of a module as the settings write it, as the body of a string
/// literal: a key that is not empty, of any module but the mounts (which show
/// their key on each of their lines), is written in the key color, followed
/// by the separator color, `:`, the escape of a reset, and a space.
pub open spec fn shown_key(m: ModuleConfig, keys: Seq<char>, sep: Seq<char>) -> Seq<char> {
    if m.key@.len() > 0 && m.id@ != "mounts"@ {
        keys + m.key@ + sep + seq![':', '\\', 'x', '1', 'b', '[', '0', 'm', ' ']
    } else {
        m.key@
    }
}

/// The rows of the module `m` at position `i`: the palettes and the palette
/// separator come last, the title and its dashes first, every other module at
/// its position; the mounts have no key of their own.
pub open spec fn module_rows(m: ModuleConfig, i: int, keys: Seq<char>, sep: Seq<char>) -> Seq<
    RowView,
> {
    let k = shown_key(m, keys, sep);
    if m.id@ == "standard_palette"@ {
        seq![(254usize, k, m.id@)]
    } else if m.id@ == "bright_palette"@ {
        seq![(255usize, k, m.id@)]
    } else if m.id@ == "title"@ {
        seq![(0usize, k, m.id@), (1usize, k, "sep"@)]
    } else if m.id@ == "mounts"@ {
        seq![((i + 1) as usize, seq![], m.id@)]
    } else {
        seq![((i + 1) as usize, k, m.id@)]
    }
}

/// The rows of the modules `ms`, in their order.
pub open spec fn modules_rows(ms: Seq<ModuleConfig>, keys: Seq<char>, sep: Seq<char>) -> Seq<
    RowView,
>
    decreases ms.len(),
{
    if ms.len() == 0 {
        seq![]
    } else {
        modules_rows(ms.drop_last(), keys, sep) + module_rows(ms.last(), ms.len() - 1, keys, sep)
    }
}

/// All rows before they are put in order: those of the modules and the
/// palette separator.
pub open spec fn all_rows(ms: Seq<ModuleConfig>, keys: Seq<char>, sep: Seq<char>) -> Seq<RowView> {
    modules_rows(ms, keys, sep) + seq![(253usize, seq![], "palette_sep"@)]
}

fn decorated_key(m: &ModuleConfig, keys: &Vec<char>, sep: &Vec<char>) -> (k: Vec<char>)
    ensures
        k@ == shown_key(*m, keys@, sep@),
{
    let id = chars_of(m.id.as_str());
    let key = chars_of(m.key.as_str());
    let mut k: Vec<char> = Vec::new();
    if key.len() > 0 && !equals_str(&id, "mounts") {
        extend(&mut k, keys);
        extend(&mut k, &key);
        extend(&mut k, sep);
        k.push(':');
        k.push('\\');
        k.push('x');
        k.push('1');
        k.push('b');
        k.push('[');
        k.push('0');
        k.push('m');
        k.push(' ');
    } else {
        extend(&mut k, &key);
    }
    k
}

fn written_keys(ms: &Vec<ModuleConfig>, keys: &Vec<char>, sep: &Vec<char>) -> (out: Vec<String>)
    ensures
        text_views(out@) == module_keys(ms@, keys@, sep@),
{
    let mut out: Vec<String> = Vec::new();
    let mut i: usize = 0;
    while i < ms.len()
        invariant
            0 <= i <= ms.len(),
            text_views(out@) == module_keys(ms@, keys@, sep@).take(i as int),
        decreases ms.len() - i,
    {
        let k = decorated_key(&ms[i], keys, sep);
        let ghost before = text_views(out@);
        out.push(string_of(&k));
        assert(text_views(out@) =~= before.push(module_keys(ms@, keys@, sep@)[i as int]));
        assert(module_keys(ms@, keys@, sep@).take(i + 1) =~= module_keys(ms@, keys@, sep@).take(
            i as int,
        ).push(module_keys(ms@, keys@, sep@)[i as int]));
        i += 1;
    }
    assert(module_keys(ms@, keys@, sep@).take(ms.len() as int) =~= module_keys(ms@, keys@, sep@));
    out
}

fn push_module_rows(
    out: &mut Vec<RowChars>,
    m: &ModuleConfig,
    i: usize,
    keys: &Vec<char>,
    sep: &Vec<char>,
)
    requires
        i < usize::MAX,
    ensures
        row_views(final(out)@) == row_views(old(out)@) + module_rows(*m, i as int, keys@, sep@),
{
    let id = chars_of(m.id.as_str());
    let is_mounts = equals_str(&id, "mounts");
    let k = decorated_key(m, keys, sep);
    let ghost before = row_views(out@);
    if equals_str(&id, "standard_palette") {
        out.push((254, k, id));
    } else if equals_str(&id, "bright_palette") {
        out.push((255, k, id));
    } else if equals_str(&id, "title") {
        let k2 = crate::text::sub_chars(&k, 0, k.len());
        assert(k2@ == k@);
        out.push((0, k, id));
        out.push((1, k2, chars_of("sep")));
    } else if is_mounts {
        out.push((i + 1, Vec::new(), id));
    } else {
        out.push((i + 1, k, id));
    }
    assert(row_views(out@) =~= before + module_rows(*m, i as int, keys@, sep@));
}

fn build_rows(ms: &Vec<ModuleConfig>, keys: &Vec<char>, sep: &Vec<char>) -> (out: Vec<RowChars>)
    ensures
        row_views(out@) == all_rows(ms@, keys@, sep@),
{
    let mut out: Vec<RowChars> = Vec::new();
    let mut i: usize = 0;
    while i < ms.len()
        invariant
            0 <= i <= ms.len(),
            row_views(out@) == modules_rows(ms@.take(i as int), keys@, sep@),
        decreases ms.len() - i,
    {
        assert(ms@.take(i + 1).drop_last() == ms@.take(i as int));
        assert(ms@.take(i + 1).last() == ms@[i as int]);
        push_module_rows(&mut out, &ms[i], i, keys, sep);
        i += 1;
    }
    assert(ms@.take(ms.len() as int) == ms@);
    let ghost before = row_views(out@);
    out.push((253, Vec::new(), chars_of("palette_sep")));
    assert(row_views(out@) =~= before + seq![(253usize, seq![], "palette_sep"@)]);
    out
}

// ----------------------------------------------------------------------
// settings
// ----------------------------------------------------------------------

/// What the fetch is built with.
pub struct Settings {
    /// The colors, as escape sequences.
    pub palette: Palette,
    pub ram: Thresholds,
    pub swap: Thresholds,
    pub mounts: Thresholds,
    /// The key of the mounts module, read as a string literal, shown on each
    /// of its lines.
    pub mounts_key: String,
    /// Each module's id and whether it is shown, in the order of the configuration.
    pub modules: Vec<(String, bool)>,
    /// The rows of the output in order: position, key as shown, module id.
    pub rows: Vec<(usize, String, String)>,
    pub logo_enabled: bool,
    /// Each logo's id and its colored and padded text, read as string
    /// literals, in the order of the configuration.
    pub logos: Vec<(String, String)>,
}

/// The views of rows of strings.
pub open spec fn string_rows(v: Seq<(usize, String, String)>) -> Seq<RowView> {
    v.map_values(|r: (usize, String, String)| (r.0, r.1@, r.2@))
}

/// The views of pairs of a string and a flag.
pub open spec fn flag_views(v: Seq<(String, bool)>) -> Seq<(Seq<char>, bool)> {
    v.map_values(|f: (String, bool)| (f.0@, f.1))
}

/// The views of pairs of strings.
pub open spec fn logo_views(v: Seq<(String, String)>) -> Seq<(Seq<char>, Seq<char>)> {
    v.map_values(|l: (String, String)| (l.0@, l.1@))
}

/// The views of strings.
pub open spec fn text_views(v: Seq<String>) -> Seq<Seq<char>> {
    v.map_values(|t: String| t@)
}

/// Each module's id and whether it is shown.
pub open spec fn config_flags(ms: Seq<ModuleConfig>) -> Seq<(Seq<char>, bool)> {
    ms.map_values(|m: ModuleConfig| (m.id@, m.enabled))
}

/// The key of the first module with the id `name`, or nothing.
pub open spec fn key_of(ms: Seq<ModuleConfig>, name: Seq<char>) -> Seq<char>
    decreases ms.len(),
{
    if ms.len() == 0 {
        seq![]
    } else if ms[0].id@ == name {
        ms[0].key@
    } else {
        key_of(ms.drop_first(), name)
    }
}

/// Whether the color written `c` is the escape sequence `code`.
pub open spec fn color_is(c: Seq<char>, code: Seq<char>) -> bool {
    color_code(encode_utf8(c)) == Ok::<Seq<char>, ColorError>(code)
}

/// Whether every color of `p` is the escape sequence of the color written in `c`.
pub open spec fn palette_from(p: Palette, c: ColorsConfig) -> bool {
    &&& color_is(c.title@, p.title@)
    &&& color_is(c.title_sep@, p.title_sep@)
    &&& color_is(c.keys@, p.keys@)
    &&& color_is(c.separator@, p.separator@)
    &&& color_is(c.values@, p.values@)
    &&& color_is(c.mountpoints@, p.mountpoints@)
    &&& color_is(c.low@, p.low@)
    &&& color_is(c.medium@, p.medium@)
    &&& color_is(c.high@, p.high@)
}

/// The text of a logo with its colors and padding.
pub open spec fn logo_art(l: LogoConfig, text: Seq<char>, pad: PaddingConfig) -> Seq<char> {
    match colorize(text, color_bytes(l.colors@)) {
        Ok(t) => padded(t, pad),
        Err(_) => seq![],
    }
}

/// The id and the finished text of each logo, as the string literals the
/// settings write them in denote them.
pub open spec fn built_logos(ls: Seq<LogoConfig>, texts: Seq<Seq<char>>, pad: PaddingConfig) -> Seq<
    (Seq<char>, Seq<char>),
> {
    Seq::new(
        ls.len(),
        |i: int| (literal_text(ls[i].id@), literal_text(logo_art(ls[i], texts[i], pad))),
    )
}

/// Whether `table` holds the rows of the modules `ms` and the palette
/// separator, with their keys as written, in order.
pub open spec fn sorted_table(table: Seq<RowView>, ms: Seq<ModuleConfig>, keys: Seq<char>, sep: Seq<
    char,
>) -> bool {
    rows_sorted(table) && table.to_multiset() == all_rows(ms, keys, sep).to_multiset()
}

/// A row with its key as shown: what the written key denotes.
pub open spec fn shown_row(r: RowView) -> RowView {
    (r.0, literal_text(r.1), r.2)
}

/// The rows of `table` with their keys as shown.
pub open spec fn table_rows(table: Seq<RowView>) -> Seq<RowView> {
    table.map_values(|r: RowView| shown_row(r))
}

/// Whether `s` is what the configuration `c` builds, its logos having the texts `texts`.
pub open spec fn settings_from(c: Config, texts: Seq<Seq<char>>, s: Settings) -> bool {
    &&& palette_from(s.palette, c.colors)
    &&& s.ram == c.ram
    &&& s.swap == c.swap
    &&& s.mounts == c.mounts
    &&& s.mounts_key@ == literal_text(key_of(c.modules@, "mounts"@))
    &&& flag_views(s.modules@) == config_flags(c.modules@)
    &&& exists|table: Seq<RowView>|
        #[trigger] sorted_table(table, c.modules@, s.palette.keys@, s.palette.separator@)
            && string_rows(s.rows@) == table_rows(table)
    &&& s.logo_enabled == c.logo_enabled
    &&& logo_views(s.logos@) == built_logos(c.logos@, texts, c.padding)
}

fn rows_to_strings(rows: &Vec<RowChars>) -> (out: Vec<(usize, String, String)>)
    requires
        forall|i: int| 0 <= i < rows.len() ==> unescape(#[trigger] rows@[i].1@) is Some,
    ensures
        string_rows(out@) == table_rows(row_views(rows@)),
{
    let ghost t = table_rows(row_views(rows@));
    let mut out: Vec<(usize, String, String)> = Vec::new();
    let mut i: usize = 0;
    while i < rows.len()
        invariant
            0 <= i <= rows.len(),
            t == table_rows(row_views(rows@)),
            forall|k: int| 0 <= k < rows.len() ==> unescape(#[trigger] rows@[k].1@) is Some,
            string_rows(out@) == t.take(i as int),
        decreases rows.len() - i,
    {
        let ghost before = string_rows(out@);
        let r = &rows[i];
        assert(unescape(rows@[i as int].1@) is Some);
        let key = crate::literal::unescape_chars(&r.1).unwrap();
        out.push((r.0, string_of(&key), string_of(&r.2)));
        assert(string_rows(out@) =~= before.push(t[i as int]));
        assert(t.take(i + 1) =~= t.take(i as int).push(t[i as int]));
        i += 1;
    }
    assert(t.take(rows.len() as int) =~= t);
    out
}

fn flags_of(ms: &Vec<ModuleConfig>) -> (out: Vec<(String, bool)>)
    ensures
        flag_views(out@) == config_flags(ms@),
{
    let mut out: Vec<(String, bool)> = Vec::new();
    let mut i: usize = 0;
    while i < ms.len()
        invariant
            0 <= i <= ms.len(),
            flag_views(out@) == config_flags(ms@).take(i as int),
        decreases ms.len() - i,
    {
        let ghost before = flag_views(out@);
        let id = chars_of(ms[i].id.as_str());
        out.push((string_of(&id), ms[i].enabled));
        assert(flag_views(out@) =~= before.push(config_flags(ms@)[i as int]));
        assert(config_flags(ms@).take(i + 1) =~= config_flags(ms@).take(i as int).push(
            config_flags(ms@)[i as int],
        ));
        i += 1;
    }
    assert(config_flags(ms@).take(ms.len() as int) =~= config_flags(ms@));
    out
}

fn find_key(ms: &Vec<ModuleConfig>, name: &str) -> (out: String)
    ensures
        out@ == key_of(ms@, name@),
{
    let mut i: usize = 0;
    assert(ms@.skip(0) == ms@);
    while i < ms.len()
        invariant
            0 <= i <= ms.len(),
            key_of(ms@, name@) == key_of(ms@.skip(i as int), name@),
        decreases ms.len() - i,
    {
        assert(ms@.skip(i as int)[0] == ms@[i as int]);
        let id = chars_of(ms[i].id.as_str());
        if equals_str(&id, name) {
            let k = chars_of(ms[i].key.as_str());
            return string_of(&k);
        }
        assert(ms@.skip(i as int).drop_first() == ms@.skip(i + 1));
        i += 1;
    }
    String::new()
}

fn color(c: &String) -> (r: Result<String, ConfigError>)
    ensures
        match r {
            Ok(code) => color_is(c@, code@),
            Err(e) => color_err(c@) == Some(e),
        },
{
    match parse_x1b(c.as_str()) {
        Ok(code) => Ok(code),
        Err(e) => Err(ConfigError::Color(e)),
    }
}

proof fn lemma_logo_err_prefix(ls: Seq<LogoConfig>, texts: Seq<Seq<char>>, n: int)
    requires
        0 <= n <= ls.len(),
        logo_err(ls.take(n), texts) is Some,
    ensures
        logo_err(ls, texts) == logo_err(ls.take(n), texts),
    decreases ls.len(),
{
    if n < ls.len() {
        assert(ls.drop_last().take(n) == ls.take(n));
        lemma_logo_err_prefix(ls.drop_last(), texts, n);
    } else {
        assert(ls.take(n) == ls);
    }
}

fn build_logos(ls: &Vec<LogoConfig>, texts: &Vec<String>, pad: &PaddingConfig) -> (r: Result<
    Vec<String>,
    ConfigError,
>)
    requires
        texts.len() == ls.len(),
    ensures
        match r {
            Ok(v) => logo_err(ls@, text_views(texts@)) is None && text_views(v@) == logo_arts(
                ls@,
                text_views(texts@),
                *pad,
            ),
            Err(e) => logo_err(ls@, text_views(texts@)) == Some(e),
        },
{
    let ghost tv = text_views(texts@);
    let mut out: Vec<String> = Vec::new();
    let mut i: usize = 0;
    while i < ls.len()
        invariant
            0 <= i <= ls.len(),
            texts.len() == ls.len(),
            tv == text_views(texts@),
            logo_err(ls@.take(i as int), tv) is None,
            text_views(out@) == logo_arts(ls@, tv, *pad).take(i as int),
        decreases ls.len() - i,
    {
        let ghost pre = ls@.take(i + 1);
        assert(pre.drop_last() == ls@.take(i as int));
        assert(pre.last() == ls@[i as int]);
        assert(tv[i as int] == texts@[i as int]@);
        match colorize_logo(texts[i].as_str(), &ls[i].colors) {
            Err(e) => {
                assert(logo_err(pre, tv) == Some(ConfigError::LogoColor(i, e)));
                proof {
                    lemma_logo_err_prefix(ls@, tv, i + 1);
                }
                return Err(ConfigError::LogoColor(i, e));
            },
            Ok(t) => {
                let art = pad_logo(t.as_str(), pad);
                let ghost before = text_views(out@);
                out.push(art);
                assert(text_views(out@) =~= before.push(logo_arts(ls@, tv, *pad)[i as int]));
                assert(logo_arts(ls@, tv, *pad).take(i + 1) =~= logo_arts(ls@, tv, *pad).take(
                    i as int,
                ).push(logo_arts(ls@, tv, *pad)[i as int]));
            },
        }
        i += 1;
    }
    assert(ls@.take(ls.len() as int) == ls@);
    assert(logo_arts(ls@, tv, *pad).take(ls.len() as int) =~= logo_arts(ls@, tv, *pad));
    Ok(out)
}

fn ids_of(ls: &Vec<LogoConfig>) -> (out: Vec<String>)
    ensures
        text_views(out@) == logo_ids(ls@),
{
    let mut out: Vec<String> = Vec::new();
    let mut i: usize = 0;
    while i < ls.len()
        invariant
            0 <= i <= ls.len(),
            text_views(out@) == logo_ids(ls@).take(i as int),
        decreases ls.len() - i,
    {
        let id = chars_of(ls[i].id.as_str());
        let ghost before = text_views(out@);
        out.push(string_of(&id));
        assert(text_views(out@) =~= before.push(logo_ids(ls@)[i as int]));
        assert(logo_ids(ls@).take(i + 1) =~= logo_ids(ls@).take(i as int).push(
            logo_ids(ls@)[i as int],
        ));
        i += 1;
    }
    assert(logo_ids(ls@).take(ls.len() as int) =~= logo_ids(ls@));
    out
}

fn pair_logos(ids: Vec<String>, arts: Vec<String>) -> (out: Vec<(String, String)>)
    requires
        ids.len() == arts.len(),
    ensures
        logo_views(out@).len() == ids.len(),
        forall|i: int|
            0 <= i < ids.len() ==> #[trigger] logo_views(out@)[i] == (
                text_views(ids@)[i],
                text_views(arts@)[i],
            ),
{
    let mut out: Vec<(String, String)> = Vec::new();
    let mut i: usize = 0;
    while i < ids.len()
        invariant
            0 <= i <= ids.len(),
            ids.len() == arts.len(),
            out@.len() == i,
            forall|k: int|
                0 <= k < i ==> #[trigger] logo_views(out@)[k] == (
                    text_views(ids@)[k],
                    text_views(arts@)[k],
                ),
        decreases ids.len() - i,
    {
        let id = chars_of(ids[i].as_str());
        let art = chars_of(arts[i].as_str());
        let ghost before = out@;
        out.push((string_of(&id), string_of(&art)));
        assert forall|k: int| 0 <= k < i + 1 implies #[trigger] logo_views(out@)[k] == (
            text_views(ids@)[k],
            text_views(arts@)[k],
        ) by {
            assert(logo_views(out@)[k] == (out@[k].0@, out@[k].1@));
            assert(text_views(ids@)[k] == ids@[k]@);
            assert(text_views(arts@)[k] == arts@[k]@);
            if k < i {
                assert(out@[k] == before[k]);
                assert(logo_views(before)[k] == (before[k].0@, before[k].1@));
            }
        }
        i += 1;
    }
    out
}

proof fn lemma_key_of(ms: Seq<ModuleConfig>, name: Seq<char>)
    ensures
        key_of(ms, name) == Seq::<char>::empty() || exists|j: int|
            0 <= j < ms.len() && ms[j].id@ == name && #[trigger] ms[j].key@ == key_of(ms, name),
    decreases ms.len(),
{
    if ms.len() > 0 && ms[0].id@ != name {
        lemma_key_of(ms.drop_first(), name);
        if key_of(ms, name) != Seq::<char>::empty() {
            let j = choose|j: int|
                0 <= j < ms.drop_first().len() && ms.drop_first()[j].id@ == name
                    && #[trigger] ms.drop_first()[j].key@ == key_of(ms.drop_first(), name);
            assert(ms[j + 1] == ms.drop_first()[j]);
        }
    } else if ms.len() > 0 {
        assert(ms[0].key@ == key_of(ms, name));
    }
}

proof fn lemma_row_keys_valid(ms: Seq<ModuleConfig>, keys: Seq<char>, sep: Seq<char>)
    requires
        forall|j: int| 0 <= j < ms.len() ==> unescape(#[trigger] shown_key(ms[j], keys, sep)) is Some,
    ensures
        forall|k: int|
            0 <= k < modules_rows(ms, keys, sep).len() ==> unescape(
                #[trigger] modules_rows(ms, keys, sep)[k].1,
            ) is Some,
    decreases ms.len(),
{
    if ms.len() > 0 {
        let ls = ms.drop_last();
        assert forall|j: int| 0 <= j < ls.len() implies unescape(
            #[trigger] shown_key(ls[j], keys, sep),
        ) is Some by {
            assert(ls[j] == ms[j]);
        }
        lemma_row_keys_valid(ls, keys, sep);
        let prev = modules_rows(ls, keys, sep);
        let last = module_rows(ms.last(), ms.len() - 1, keys, sep);
        assert(unescape(shown_key(ms[ms.len() - 1], keys, sep)) is Some);
        assert(unescape(Seq::<char>::empty()) is Some) by {
            reveal(unescape);
            assert(crate::literal::crlf_to_lf(Seq::<char>::empty()) == Seq::<char>::empty());
        }
        assert forall|k: int| 0 <= k < modules_rows(ms, keys, sep).len() implies unescape(
            #[trigger] modules_rows(ms, keys, sep)[k].1,
        ) is Some by {
            if k >= prev.len() {
                assert(modules_rows(ms, keys, sep)[k] == last[k - prev.len()]);
            } else {
                assert(modules_rows(ms, keys, sep)[k] == prev[k]);
            }
        }
    }
}

proof fn lemma_keys_valid(ms: Seq<ModuleConfig>, keys: Seq<char>, sep: Seq<char>)
    requires
        first_invalid(module_keys(ms, keys, sep)) is None,
    ensures
        forall|j: int| 0 <= j < ms.len() ==> unescape(#[trigger] shown_key(ms[j], keys, sep)) is Some,
        unescape(Seq::<char>::empty()) is Some,
{
    lemma_all_valid(module_keys(ms, keys, sep));
    assert forall|j: int| 0 <= j < ms.len() implies unescape(
        #[trigger] shown_key(ms[j], keys, sep),
    ) is Some by {
        assert(module_keys(ms, keys, sep)[j] == shown_key(ms[j], keys, sep));
    }
    reveal(unescape);
    assert(crate::literal::crlf_to_lf(Seq::<char>::empty()) == Seq::<char>::empty());
}

/// The rows of the modules `ms` in output order, with their keys as shown.
fn shown_table(ms: &Vec<ModuleConfig>, keys: &Vec<char>, sep: &Vec<char>) -> (r: (
    Vec<(usize, String, String)>,
    Ghost<Seq<RowView>>,
))
    requires
        first_invalid(module_keys(ms@, keys@, sep@)) is None,
    ensures
        sorted_table(r.1@, ms@, keys@, sep@),
        string_rows(r.0@) == table_rows(r.1@),
{
    let raw = build_rows(ms, keys, sep);
    let ghost all = row_views(raw@);
    let sorted = sort_rows(raw);
    proof {
        broadcast use vstd::seq_lib::group_to_multiset_ensures;

        lemma_keys_valid(ms@, keys@, sep@);
        lemma_row_keys_valid(ms@, keys@, sep@);
        let mr = modules_rows(ms@, keys@, sep@);
        assert forall|i: int| 0 <= i < sorted.len() implies unescape(
            #[trigger] sorted@[i].1@,
        ) is Some by {
            let rv = row_views(sorted@);
            assert(rv[i] == row_view(sorted@[i]));
            assert(rv.contains(rv[i]));
            assert(rv.to_multiset().count(rv[i]) > 0);
            assert(all.to_multiset().count(rv[i]) > 0);
            assert(all.contains(rv[i]));
            let k = choose|k: int| 0 <= k < all.len() && all[k] == rv[i];
            assert(all[k].1 == sorted@[i].1@);
            if k < mr.len() {
                assert(all[k] == mr[k]);
                assert(unescape(mr[k].1) is Some);
            } else {
                assert(all[k] == (253usize, Seq::<char>::empty(), "palette_sep"@));
            }
        }
    }
    let rows = rows_to_strings(&sorted);
    (rows, Ghost(row_views(sorted@)))
}

/// The key of the mounts module, as shown.
fn shown_mounts_key(ms: &Vec<ModuleConfig>, keys: &Vec<char>, sep: &Vec<char>) -> (k: String)
    requires
        first_invalid(module_keys(ms@, keys@, sep@)) is None,
    ensures
        k@ == literal_text(key_of(ms@, "mounts"@)),
{
    let written = find_key(ms, "mounts");
    proof {
        lemma_keys_valid(ms@, keys@, sep@);
        lemma_key_of(ms@, "mounts"@);
        if written@ != Seq::<char>::empty() {
            let j = choose|j: int|
                0 <= j < ms@.len() && ms@[j].id@ == "mounts"@ && #[trigger] ms@[j].key@ == written@;
            assert(shown_key(ms@[j], keys@, sep@) == written@);
        }
    }
    let r = unescape_str(written.as_str());
    assert(r is Some);
    r.unwrap()
}

/// Reads the configuration `c`, whose logos have the texts `logo_texts`: its
/// colors as escape sequences and its logos colored and padded, as the
/// settings write them; or its first problem met while it is read.
fn read_config(c: &Config, logo_texts: &Vec<String>) -> (r: Result<(Palette, Vec<String>), ConfigError>)
    requires
        logo_texts.len() == c.logos.len(),
    ensures
        match r {
            Ok((p, arts)) => read_error(*c, text_views(logo_texts@)) is None && palette_from(
                p,
                c.colors,
            ) && text_views(arts@) == logo_arts(c.logos@, text_views(logo_texts@), c.padding),
            Err(e) => read_error(*c, text_views(logo_texts@)) == Some(e),
        },
{
    reveal(read_error);
    let keys = match color(&c.colors.keys) {
        Ok(v) => v,
        Err(e) => return Err(e),
    };
    let separator = match color(&c.colors.separator) {
        Ok(v) => v,
        Err(e) => return Err(e),
    };
    if let Some(i) = find_unknown(&c.modules) {
        return Err(ConfigError::UnknownModule(i));
    }
    let values = match color(&c.colors.values) {
        Ok(v) => v,
        Err(e) => return Err(e),
    };
    let title = match color(&c.colors.title) {
        Ok(v) => v,
        Err(e) => return Err(e),
    };
    let title_sep = match color(&c.colors.title_sep) {
        Ok(v) => v,
        Err(e) => return Err(e),
    };
    let mountpoints = match color(&c.colors.mountpoints) {
        Ok(v) => v,
        Err(e) => return Err(e),
    };
    let low = match color(&c.colors.low) {
        Ok(v) => v,
        Err(e) => return Err(e),
    };
    let medium = match color(&c.colors.medium) {
        Ok(v) => v,
        Err(e) => return Err(e),
    };
    let high = match color(&c.colors.high) {
        Ok(v) => v,
        Err(e) => return Err(e),
    };
    if let Some(e) = check_thresholds(c.ram, Gauge::Ram) {
        return Err(e);
    }
    if let Some(e) = check_thresholds(c.swap, Gauge::Swap) {
        return Err(e);
    }
    if let Some(e) = check_thresholds(c.mounts, Gauge::Mounts) {
        return Err(e);
    }
    let arts = match build_logos(&c.logos, logo_texts, &c.padding) {
        Ok(v) => v,
        Err(e) => return Err(e),
    };
    Ok(
        (
            Palette { title, title_sep, keys, separator, values, mountpoints, low, medium, high },
            arts,
        ),
    )
}

/// Checks what the settings that the configuration `c` is written into hold:
/// returns the ids and the texts of its logos as the settings' literals denote
/// them, or the first problem of `written_error`.
fn check_written(
    c: &Config,
    keys: &Vec<char>,
    sep: &Vec<char>,
    arts: &Vec<String>,
    texts: Ghost<Seq<Seq<char>>>,
) -> (r: Result<(Vec<String>, Vec<String>), ConfigError>)
    requires
        keys@ == code_of(c.colors.keys@),
        sep@ == code_of(c.colors.separator@),
        text_views(arts@) == logo_arts(c.logos@, texts@, c.padding),
    ensures
        match r {
            Ok((ids, shown)) => ids.len() == c.logos.len() && shown.len() == c.logos.len()
                && written_error(*c, texts@) is None && first_invalid(
                module_keys(c.modules@, keys@, sep@),
            ) is None && text_views(ids@) == literal_texts(logo_ids(c.logos@)) && text_views(
                shown@,
            ) == literal_texts(logo_arts(c.logos@, texts@, c.padding)),
            Err(e) => written_error(*c, texts@) == Some(e),
        },
{
    reveal(written_error);
    if let Some(i) = find_duplicate(&c.modules) {
        return Err(ConfigError::DuplicateModule(i));
    }
    if let Some(k) = find_missing(&c.modules) {
        return Err(ConfigError::MissingModule(k));
    }
    let written = written_keys(&c.modules, keys, sep);
    if let Err(i) = unescape_all(&written) {
        return Err(ConfigError::InvalidKey(i));
    }
    match unescape_str(c.title_separator_char.as_str()) {
        Some(_) => {},
        None => return Err(ConfigError::InvalidTitleSeparator),
    }
    let shown_arts = match unescape_all(arts) {
        Ok(v) => v,
        Err(i) => return Err(ConfigError::InvalidLogo(i)),
    };
    let ids = ids_of(&c.logos);
    let shown_ids = match unescape_all(&ids) {
        Ok(v) => v,
        Err(i) => return Err(ConfigError::InvalidLogoId(i)),
    };
    let names = names_of(&c.logos);
    if let Some(i) = find_non_identifier(&names) {
        return Err(ConfigError::LogoName(i));
    }
    if let Some(i) = find_repeat(&names) {
        return Err(ConfigError::DuplicateLogo(i));
    }
    if c.logos.len() == 0 {
        return Err(ConfigError::NoLogo);
    }
    assert(text_views(shown_ids@).len() == shown_ids@.len());
    assert(literal_texts(logo_ids(c.logos@)).len() == c.logos@.len());
    assert(text_views(shown_arts@).len() == shown_arts@.len());
    assert(literal_texts(logo_arts(c.logos@, texts@, c.padding)).len() == c.logos@.len());
    Ok((shown_ids, shown_arts))
}

proof fn lemma_logos_built(
    out: Seq<(Seq<char>, Seq<char>)>,
    ids: Seq<Seq<char>>,
    arts: Seq<Seq<char>>,
    ls: Seq<LogoConfig>,
    texts: Seq<Seq<char>>,
    pad: PaddingConfig,
)
    requires
        ids == literal_texts(logo_ids(ls)),
        arts == literal_texts(logo_arts(ls, texts, pad)),
        out.len() == ids.len(),
        forall|i: int| 0 <= i < ids.len() ==> #[trigger] out[i] == (ids[i], arts[i]),
    ensures
        out == built_logos(ls, texts, pad),
{
    assert forall|i: int| 0 <= i < out.len() implies #[trigger] out[i] == built_logos(
        ls,
        texts,
        pad,
    )[i] by {
        assert(out[i] == (ids[i], arts[i]));
    }
    assert(out =~= built_logos(ls, texts, pad));
}

/// The settings of a configuration that has no problem, from its palette,
/// its key and separator colors, and its logos' ids and texts as read.
fn assemble(
    c: &Config,
    palette: Palette,
    keys_chars: &Vec<char>,
    sep_chars: &Vec<char>,
    shown_ids: Vec<String>,
    shown_arts: Vec<String>,
    texts: Ghost<Seq<Seq<char>>>,
) -> (s: Settings)
    requires
        palette_from(palette, c.colors),
        keys_chars@ == palette.keys@,
        sep_chars@ == palette.separator@,
        first_invalid(module_keys(c.modules@, keys_chars@, sep_chars@)) is None,
        shown_ids.len() == c.logos.len(),
        shown_arts.len() == c.logos.len(),
        text_views(shown_ids@) == literal_texts(logo_ids(c.logos@)),
        text_views(shown_arts@) == literal_texts(logo_arts(c.logos@, texts@, c.padding)),
    ensures
        settings_from(*c, texts@, s),
{
    let ghost ids_v = text_views(shown_ids@);
    let ghost arts_v = text_views(shown_arts@);
    let logos = pair_logos(shown_ids, shown_arts);
    proof {
        lemma_logos_built(logo_views(logos@), ids_v, arts_v, c.logos@, texts@, c.padding);
    }
    let (rows, table) = shown_table(&c.modules, keys_chars, sep_chars);
    assert(sorted_table(table@, c.modules@, palette.keys@, palette.separator@));
    let mounts_key = shown_mounts_key(&c.modules, keys_chars, sep_chars);
    let modules = flags_of(&c.modules);
    Settings {
        palette,
        ram: c.ram,
        swap: c.swap,
        mounts: c.mounts,
        mounts_key,
        modules,
        rows,
        logo_enabled: c.logo_enabled,
        logos,
    }
}

/// Builds the settings from the configuration `c`, the texts of its logos
/// given in `logo_texts` (one per logo, in order): the colors turned into
/// escape sequences, the module rows in output order, the logos colored and
/// padded. The configuration is refused with its first problem, in the
/// order that `config_error` lists.
pub fn build_settings(c: &Config, logo_texts: &Vec<String>) -> (r: Result<Settings, ConfigError>)
    requires
        logo_texts.len() == c.logos.len(),
    ensures
        match r {
            Ok(s) => config_error(*c, text_views(logo_texts@)) is None && settings_from(
                *c,
                text_views(logo_texts@),
                s,
            ),
            Err(e) => config_error(*c, text_views(logo_texts@)) == Some(e),
        },
{
    let ghost tv = text_views(logo_texts@);
    let (palette, arts) = match read_config(c, logo_texts) {
        Ok(v) => v,
        Err(e) => return Err(e),
    };
    let keys_chars = chars_of(palette.keys.as_str());
    let sep_chars = chars_of(palette.separator.as_str());
    let (shown_ids, shown_arts) = match check_written(
        c,
        &keys_chars,
        &sep_chars,
        &arts,
        Ghost(tv),
    ) {
        Ok(v) => v,
        Err(e) => return Err(e),
    };
    Ok(assemble(c, palette, &keys_chars, &sep_chars, shown_ids, shown_arts, Ghost(tv)))
}

/// The art of the first logo with the id `id`.
pub open spec fn find_logo(logos: Seq<(Seq<char>, Seq<char>)>, id: Seq<char>) -> Option<Seq<char>>
    decreases logos.len(),
{
    if logos.len() == 0 {
        None
    } else if logos[0].0 == id {
        Some(logos[0].1)
    } else {
        find_logo(logos.drop_first(), id)
    }
}

/// The logo shown for the os `id`: its own logo, or else the logo of
/// `fallback_id` (the os it is like), or else the first logo.
pub open spec fn chosen_logo(logos: Seq<(Seq<char>, Seq<char>)>, id: Seq<char>, fallback_id: Seq<
    char,
>) -> Seq<char> {
    match find_logo(logos, id) {
        Some(a) => a,
        None => match find_logo(logos, fallback_id) {
            Some(a) => a,
            None => logos[0].1,
        },
    }
}

/// Whether the first module with the id `name` is shown; false when there is none.
pub open spec fn module_enabled(flags: Seq<(Seq<char>, bool)>, name: Seq<char>) -> bool
    decreases flags.len(),
{
    if flags.len() == 0 {
        false
    } else if flags[0].0 == name {
        flags[0].1
    } else {
        module_enabled(flags.drop_first(), name)
    }
}

fn lookup_logo(logos: &Vec<(String, String)>, id: &str) -> (r: Option<String>)
    ensures
        r.deep_view() == find_logo(logo_views(logos@), id@),
{
    let ghost lv = logo_views(logos@);
    let idv = chars_of(id);
    let mut i: usize = 0;
    assert(lv.skip(0) == lv);
    while i < logos.len()
        invariant
            0 <= i <= logos.len(),
            lv == logo_views(logos@),
            idv@ == id@,
            find_logo(lv, id@) == find_logo(lv.skip(i as int), id@),
        decreases logos.len() - i,
    {
        assert(lv.skip(i as int)[0] == lv[i as int]);
        let name = chars_of(logos[i].0.as_str());
        if crate::text::same_chars(&name, &idv) {
            let art = chars_of(logos[i].1.as_str());
            return Some(string_of(&art));
        }
        assert(lv.skip(i as int).drop_first() == lv.skip(i + 1));
        i += 1;
    }
    None
}

impl Settings {
    /// The logo for the os `id`: its own, or else that of `fallback_id`, or
    /// else the first logo of the configuration.
    pub fn get_logo(&self, id: &str, fallback_id: &str) -> (r: String)
        requires
            self.logos@.len() > 0,
        ensures
            r@ == chosen_logo(logo_views(self.logos@), id@, fallback_id@),
    {
        if let Some(a) = lookup_logo(&self.logos, id) {
            return a;
        }
        if let Some(a) = lookup_logo(&self.logos, fallback_id) {
            return a;
        }
        let art = chars_of(self.logos[0].1.as_str());
        string_of(&art)
    }

    /// The logo the fetch shows: nothing when logos are disabled, else the
    /// logo of the os `id` (empty when unknown), or of the os it is like.
    pub fn logo_for(&self, id: Option<String>, id_like: Option<String>) -> (r: String)
        requires
            self.logo_enabled ==> self.logos@.len() > 0,
        ensures
            r@ == if self.logo_enabled {
                chosen_logo(
                    logo_views(self.logos@),
                    match id.deep_view() {
                        Some(i) => i,
                        None => seq![],
                    },
                    match id_like.deep_view() {
                        Some(i) => i,
                        None => seq![],
                    },
                )
            } else {
                seq![]
            },
    {
        if !self.logo_enabled {
            return String::new();
        }
        let i = match id {
            Some(i) => i,
            None => String::new(),
        };
        let l = match id_like {
            Some(l) => l,
            None => String::new(),
        };
        self.get_logo(i.as_str(), l.as_str())
    }

    /// Whether the module `name` is shown.
    pub fn enabled(&self, name: &str) -> (b: bool)
        ensures
            b == module_enabled(flag_views(self.modules@), name@),
    {
        let ghost fv = flag_views(self.modules@);
        let nv = chars_of(name);
        let mut i: usize = 0;
        assert(fv.skip(0) == fv);
        while i < self.modules.len()
            invariant
                0 <= i <= self.modules.len(),
                fv == flag_views(self.modules@),
                nv@ == name@,
                module_enabled(fv, name@) == module_enabled(fv.skip(i as int), name@),
            decreases self.modules.len() - i,
        {
            assert(fv.skip(i as int)[0] == fv[i as int]);
            let id = chars_of(self.modules[i].0.as_str());
            if crate::text::same_chars(&id, &nv) {
                return self.modules[i].1;
            }
            assert(fv.skip(i as int).drop_first() == fv.skip(i + 1));
            i += 1;
        }
        false
    }
}

/// When the os has no logo of its own, nor the os it is like, the first logo
/// of the configuration is shown.
pub proof fn first_logo_is_fallback(logos: Seq<(Seq<char>, Seq<char>)>, id: Seq<char>, like: Seq<
    char,
>)
    requires
        logos.len() > 0,
        forall|i: int| 0 <= i < logos.len() ==> logos[i].0 != id && logos[i].0 != like,
    ensures
        chosen_logo(logos, id, like) == logos[0].1,
{
    lemma_find_logo_none(logos, id);
    lemma_find_logo_none(logos, like);
}

proof fn lemma_find_logo_none(logos: Seq<(Seq<char>, Seq<char>)>, id: Seq<char>)
    requires
        forall|i: int| 0 <= i < logos.len() ==> logos[i].0 != id,
    ensures
        find_logo(logos, id) is None,
    decreases logos.len(),
{
    if logos.len() > 0 {
        assert forall|i: int| 0 <= i < logos.drop_first().len() implies logos.drop_first()[i].0
            != id by {
            assert(logos.drop_first()[i] == logos[i + 1]);
        }
        lemma_find_logo_none(logos.drop_first(), id);
    }
}

/// A key written without escapes is shown as written: in the key color,
/// followed by the separator color, `:`, a reset and a space; and a mounts
/// key written without escapes is shown as written.
pub proof fn plain_keys_are_shown_as_written(c: Config, texts: Seq<Seq<char>>, s: Settings, i: int)
    requires
        settings_from(c, texts, s),
        0 <= i < c.modules@.len(),
    ensures
        plain(c.modules@[i].key@) && c.modules@[i].key@.len() > 0 && c.modules@[i].id@
            != "mounts"@ ==> literal_text(
            shown_key(c.modules@[i], s.palette.keys@, s.palette.separator@),
        ) == s.palette.keys@ + c.modules@[i].key@ + s.palette.separator@ + seq![
            ':',
            '\x1b',
            '[',
            '0',
            'm',
            ' ',
        ],
        plain(key_of(c.modules@, "mounts"@)) ==> s.mounts_key@ == key_of(c.modules@, "mounts"@),
{
    let m = c.modules@[i];
    let keys = s.palette.keys@;
    let sep = s.palette.separator@;
    if plain(m.key@) && m.key@.len() > 0 && m.id@ != "mounts"@ {
        crate::color::color_codes_are_plain(encode_utf8(c.colors.keys@));
        crate::color::color_codes_are_plain(encode_utf8(c.colors.separator@));
        lemma_plain_add(keys, m.key@);
        lemma_plain_add(keys + m.key@, sep);
        let p = keys + m.key@ + sep;
        let suffix = seq![':', '\\', 'x', '1', 'b', '[', '0', 'm', ' '];
        plain_prefix_reads_as_itself(p, suffix);
        key_suffix_reads_as_reset();
        assert(shown_key(m, keys, sep) == p + suffix);
        assert(p + seq![':', '\x1b', '[', '0', 'm', ' '] == keys + m.key@ + sep + seq![
            ':',
            '\x1b',
            '[',
            '0',
            'm',
            ' ',
        ]);
    }
    if plain(key_of(c.modules@, "mounts"@)) {
        plain_text_reads_as_itself(key_of(c.modules@, "mounts"@));
    }
}

/// Whether `id` is a module shown at its own position: any but the title and the palettes.
pub open spec fn positioned(id: Seq<char>) -> bool {
    id != "title"@ && id != "standard_palette"@ && id != "bright_palette"@
}

proof fn lemma_positioned_row_in(ms: Seq<ModuleConfig>, i: int, keys: Seq<char>, sep: Seq<char>)
    requires
        0 <= i < ms.len(),
        ms.len() <= usize::MAX,
        positioned(ms[i].id@),
    ensures
        modules_rows(ms, keys, sep).contains(module_rows(ms[i], i, keys, sep)[0]),
        module_rows(ms[i], i, keys, sep)[0].0 == i + 1,
    decreases ms.len(),
{
    let rows = modules_rows(ms, keys, sep);
    let prev = modules_rows(ms.drop_last(), keys, sep);
    if i == ms.len() - 1 {
        assert(rows[prev.len() as int] == module_rows(ms[i], i, keys, sep)[0]);
    } else {
        assert(ms.drop_last()[i] == ms[i]);
        lemma_positioned_row_in(ms.drop_last(), i, keys, sep);
        let k = choose|k: int| 0 <= k < prev.len() && prev[k] == module_rows(ms[i], i, keys, sep)[0];
        assert(rows[k] == prev[k]);
    }
}

/// The modules are shown in the order of the configuration: of two modules
/// other than the title and the palettes, the one listed first has its row first.
pub proof fn rows_follow_config_order(c: Config, texts: Seq<Seq<char>>, s: Settings, i: int, j: int)
    requires
        settings_from(c, texts, s),
        0 <= i < j < c.modules@.len(),
        positioned(c.modules@[i].id@),
        positioned(c.modules@[j].id@),
    ensures
        exists|p: int, q: int|
            0 <= p < q < s.rows@.len() && #[trigger] string_rows(s.rows@)[p] == shown_row(
                module_rows(c.modules@[i], i, s.palette.keys@, s.palette.separator@)[0],
            ) && #[trigger] string_rows(s.rows@)[q] == shown_row(
                module_rows(c.modules@[j], j, s.palette.keys@, s.palette.separator@)[0],
            ),
{
    broadcast use vstd::seq_lib::group_to_multiset_ensures;

    let ms = c.modules@;
    assert(ms.len() == c.modules.len());
    let keys = s.palette.keys@;
    let sep = s.palette.separator@;
    let table = choose|table: Seq<RowView>|
        #[trigger] sorted_table(table, ms, keys, sep) && string_rows(s.rows@) == table_rows(table);
    let ri = module_rows(ms[i], i, keys, sep)[0];
    let rj = module_rows(ms[j], j, keys, sep)[0];
    lemma_positioned_row_in(ms, i, keys, sep);
    lemma_positioned_row_in(ms, j, keys, sep);
    let all = all_rows(ms, keys, sep);
    let mr = modules_rows(ms, keys, sep);
    assert(all.contains(ri)) by {
        let k = choose|k: int| 0 <= k < mr.len() && mr[k] == ri;
        assert(all[k] == ri);
    }
    assert(all.contains(rj)) by {
        let k = choose|k: int| 0 <= k < mr.len() && mr[k] == rj;
        assert(all[k] == rj);
    }
    assert(all.to_multiset().count(ri) > 0);
    assert(all.to_multiset().count(rj) > 0);
    assert(table.to_multiset().count(ri) > 0);
    assert(table.to_multiset().count(rj) > 0);
    assert(table.contains(ri));
    assert(table.contains(rj));
    let p = choose|p: int| 0 <= p < table.len() && table[p] == ri;
    let q = choose|q: int| 0 <= q < table.len() && table[q] == rj;
    crate::order::sorted_rows_follow_positions(table, p, q);
    assert(string_rows(s.rows@).len() == table.len());
    assert(string_rows(s.rows@)[p] == shown_row(table[p]));
    assert(string_rows(s.rows@)[q] == shown_row(table[q]));
}

} // verus!
