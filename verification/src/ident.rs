//! The names the settings give their logos: each logo is a constant named
//! after its id in upper case followed by `_LOGO`, and such a name must be a
//! Rust identifier. Upper case comes from `str::to_uppercase`, the identifier
//! characters from the `unicode-ident` crate.
use vstd::prelude::*;
use crate::text::chars_of;

verus! {

/// The text that `str::to_uppercase` gives for `s`.
pub uninterp spec fn upper(s: Seq<char>) -> Seq<char>;

/// Whether `unicode_ident::is_xid_start` holds of `c`: the Unicode property
/// XID_Start.
pub uninterp spec fn xid_start(c: char) -> bool;

/// Whether `unicode_ident::is_xid_continue` holds of `c`: the Unicode
/// property XID_Continue.
pub uninterp spec fn xid_continue(c: char) -> bool;

/// Whether `c` is an ASCII letter.
pub open spec fn ascii_letter(c: char) -> bool {
    ('a' <= c && c <= 'z') || ('A' <= c && c <= 'Z')
}

/// Whether `c` is an ASCII digit.
pub open spec fn ascii_digit(c: char) -> bool {
    '0' <= c && c <= '9'
}

/// Calls `str::to_uppercase`; the result is the named `upper` of the text,
/// and nothing more is claimed of it.
#[verifier::external_body]
fn to_upper(s: &str) -> (out: String)
    ensures
        out@ == upper(s@),
{
    s.to_uppercase()
}

/// Calls `unicode_ident::is_xid_start`: the named `xid_start` of `c`; among
/// ASCII characters, whose bits the crate's `ASCII_START` table sets, exactly
/// the letters.
#[verifier::external_body]
fn is_start(c: char) -> (b: bool)
    ensures
        b == xid_start(c),
        (c as u32) < 128 ==> (b <==> ascii_letter(c)),
{
    unicode_ident::is_xid_start(c)
}

/// Calls `unicode_ident::is_xid_continue`: the named `xid_continue` of `c`;
/// among ASCII characters, whose bits the crate's `ASCII_CONTINUE` table
/// sets, exactly the letters, the digits and `_`.
#[verifier::external_body]
fn is_continue(c: char) -> (b: bool)
    ensures
        b == xid_continue(c),
        (c as u32) < 128 ==> (b <==> (ascii_letter(c) || ascii_digit(c) || c == '_')),
{
    unicode_ident::is_xid_continue(c)
}

/// Whether `s` is a Rust identifier: a first character that is `_` or
/// XID_Start, the others XID_Continue, and not `_` alone.
pub open spec fn is_identifier(s: Seq<char>) -> bool {
    &&& s.len() > 0
    &&& s != seq!['_']
    &&& (s[0] == '_' || xid_start(s[0]))
    &&& forall|i: int| 1 <= i < s.len() ==> xid_continue(#[trigger] s[i])
}

/// The name of the constant that holds the logo with the id `id`.
pub open spec fn const_name(id: Seq<char>) -> Seq<char> {
    upper(id) + seq!['_', 'L', 'O', 'G', 'O']
}

/// The name of the constant that holds the logo with the id `id`.
pub fn logo_const_name(id: &str) -> (out: Vec<char>)
    ensures
        out@ == const_name(id@),
{
    let u = to_upper(id);
    let mut out = chars_of(u.as_str());
    out.push('_');
    out.push('L');
    out.push('O');
    out.push('G');
    out.push('O');
    out
}

/// Whether `v` is a Rust identifier; see `is_identifier`.
pub fn identifier(v: &Vec<char>) -> (b: bool)
    ensures
        b == is_identifier(v@),
{
    if v.len() == 0 {
        return false;
    }
    if v.len() == 1 && v[0] == '_' {
        assert(v@ == seq!['_']);
        return false;
    }
    if !(v[0] == '_' || is_start(v[0])) {
        return false;
    }
    let mut i: usize = 1;
    while i < v.len()
        invariant
            1 <= i <= v.len(),
            forall|k: int| 1 <= k < i ==> xid_continue(#[trigger] v@[k]),
        decreases v.len() - i,
    {
        if !is_continue(v[i]) {
            return false;
        }
        i += 1;
    }
    true
}

} // verus!
