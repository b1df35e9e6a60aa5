//! Character classes of the annotation grammar.

use vstd::prelude::*;

verus! {

/// What `char::is_alphanumeric` returns: a fixed classification of each
/// character, pinned down below only on the ASCII range.
pub uninterp spec fn unicode_alnum(c: char) -> bool;

/// What `char::is_whitespace` returns: a fixed classification of each
/// character, pinned down below only on the ASCII range.
pub uninterp spec fn unicode_space(c: char) -> bool;

/// Relies on `char::is_alphanumeric` (std): within ASCII exactly the letters
/// and digits are alphanumeric; beyond ASCII the result depends on the
/// character alone.
pub assume_specification[ char::is_alphanumeric ](c: char) -> (r: bool)
    ensures
        r == unicode_alnum(c),
        (c as u32) < 128 ==> r == (('a' as u32 <= c as u32 && c as u32 <= 'z' as u32) || ('A'
            as u32 <= c as u32 && c as u32 <= 'Z' as u32) || ('0' as u32 <= c as u32 && c as u32
            <= '9' as u32)),
;

/// Relies on `char::is_whitespace` (std): within ASCII exactly space, tab,
/// line feed, vertical tab, form feed and carriage return are whitespace;
/// beyond ASCII the result depends on the character alone.
pub assume_specification[ char::is_whitespace ](c: char) -> (r: bool)
    ensures
        r == unicode_space(c),
        (c as u32) < 128 ==> r == (c == ' ' || c == '\t' || c == '\n' || c as u32 == 11 || c
            as u32 == 12 || c == '\r'),
;

/// An identifier character of the annotation grammar: `-`, `_`, or an
/// alphanumeric character.
pub open spec fn spec_ident_char(c: char) -> bool {
    c == '-' || c == '_' || unicode_alnum(c)
}

pub fn is_ident_char(c: char) -> (r: bool)
    ensures
        r == spec_ident_char(c),
{
    c == '-' || c == '_' || c.is_alphanumeric()
}

/// The whitespace the declaration grammar skips around punctuation:
/// space, tab, carriage return, line feed.
pub open spec fn spec_multispace_char(c: char) -> bool {
    c == ' ' || c == '\t' || c == '\r' || c == '\n'
}

pub fn is_multispace_char(c: char) -> (r: bool)
    ensures
        r == spec_multispace_char(c),
{
    c == ' ' || c == '\t' || c == '\r' || c == '\n'
}

/// Horizontal space inside one line: space or tab.
pub open spec fn spec_line_space_char(c: char) -> bool {
    c == ' ' || c == '\t'
}

pub fn is_line_space_char(c: char) -> (r: bool)
    ensures
        r == spec_line_space_char(c),
{
    c == ' ' || c == '\t'
}

} // verus!
