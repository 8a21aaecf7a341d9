//! What the library has from the `console` and `humansize` crates: the width
//! of text on a terminal, cutting text to a width, and byte sizes for people.
use vstd::prelude::*;

verus! {

/// The number of terminal columns that `console::measure_text_width` gives
/// for the text `s`: ANSI escape sequences take none, other characters their
/// Unicode display width.
pub uninterp spec fn text_width(s: Seq<char>) -> usize;

/// The text that `console::truncate_str(s, width, tail)` gives: `s` cut to
/// `width` columns, escape sequences kept, `tail` added where it was cut.
pub uninterp spec fn truncated(s: Seq<char>, width: usize, tail: Seq<char>) -> Seq<char>;

/// The text that `humansize` prints for `n` bytes with its `BINARY` options
/// (powers of 1024, units `B`, `KiB`, `MiB`, ...).
pub uninterp spec fn binary_size(n: u64) -> Seq<char>;

/// Calls `console::measure_text_width`; the result is the named
/// `text_width` of the text, and nothing more is claimed of it.
#[verifier::external_body]
pub(crate) fn measure_width(s: &str) -> (w: usize)
    ensures
        w == text_width(s@),
{
    console::measure_text_width(s)
}

/// Calls `console::truncate_str` and takes the text it returns; the result
/// is the named `truncated` of the arguments, and nothing more is claimed of it.
#[verifier::external_body]
pub(crate) fn truncate(s: &str, width: usize, tail: &str) -> (out: String)
    ensures
        out@ == truncated(s@, width, tail@),
{
    console::truncate_str(s, width, tail).into_owned()
}

/// Formats `n` with `humansize::SizeFormatter` and the `BINARY` options, as
/// `{:.2}` prints it (the formatter keeps its own two decimal places); the
/// result is the named `binary_size` of `n`, and nothing more is claimed of it.
#[verifier::external_body]
pub(crate) fn format_binary_size(n: u64) -> (out: String)
    ensures
        out@ == binary_size(n),
{
    format!("{:.2}", humansize::SizeFormatter::new(n, humansize::BINARY))
}

} // verus!
