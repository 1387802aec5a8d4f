use vstd::prelude::*;

verus! {

/// Whether `c` has the Unicode `XID_Start` property; the value is fixed by
/// the Unicode tables, so it depends on the character alone.
pub uninterp spec fn xid_start(c: char) -> bool;

/// Whether `c` has the Unicode `XID_Continue` property.
pub uninterp spec fn xid_continue(c: char) -> bool;

/// Relies on unicode_xid's `char::is_xid_start`: a table lookup of the
/// `XID_Start` property, a function of the character alone.
#[verifier::external_body]
fn char_is_xid_start(c: char) -> (r: bool)
    ensures
        r == xid_start(c),
{
    unicode_xid::UnicodeXID::is_xid_start(c)
}

/// Relies on unicode_xid's `char::is_xid_continue`: a table lookup of the
/// `XID_Continue` property, a function of the character alone.
#[verifier::external_body]
fn char_is_xid_continue(c: char) -> (r: bool)
    ensures
        r == xid_continue(c),
{
    unicode_xid::UnicodeXID::is_xid_continue(c)
}

/// A character that may open an identifier: an underscore or `XID_Start`.
pub open spec fn ident_start_spec(c: char) -> bool {
    c == '_' || xid_start(c)
}

/// A character that may continue an identifier: `XID_Continue`.
pub open spec fn ident_continue_spec(c: char) -> bool {
    xid_continue(c)
}

pub fn is_ident_start(c: char) -> (r: bool)
    ensures
        r == ident_start_spec(c),
{
    c == '_' || char_is_xid_start(c)
}

pub fn is_ident_continue(c: char) -> (r: bool)
    ensures
        r == ident_continue_spec(c),
{
    char_is_xid_continue(c)
}

/// The characters the scanner groups into whitespace tokens: the usual
/// ASCII suspects, NEXT LINE, the bidirectional marks, and the dedicated
/// Unicode line and paragraph separators.
pub open spec fn is_whitespace_spec(c: char) -> bool {
    c == '\u{0009}' || c == '\u{000A}' || c == '\u{000B}' || c == '\u{000C}' || c == '\u{000D}'
        || c == '\u{0020}' || c == '\u{0085}' || c == '\u{200E}' || c == '\u{200F}'
        || c == '\u{2028}' || c == '\u{2029}'
}

pub fn is_whitespace(c: char) -> (r: bool)
    ensures
        r == is_whitespace_spec(c),
{
    matches!(
        c,
        '\u{0009}' | '\u{000A}' | '\u{000B}' | '\u{000C}' | '\u{000D}' | '\u{0020}' | '\u{0085}'
            | '\u{200E}' | '\u{200F}' | '\u{2028}' | '\u{2029}'
    )
}

} // verus!
