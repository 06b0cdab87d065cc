//! Unicode character classes and case mappings, as the standard library defines them.
use vstd::prelude::*;

verus! {

/// Whether a character is one of ASCII.
pub open spec fn ascii(c: char) -> bool {
    c as u32 <= 0x7f
}

/// Whether `char::is_alphanumeric` accepts a character beyond ASCII.
pub uninterp spec fn other_alphanumeric(c: char) -> bool;

/// Whether `char::is_uppercase` accepts a character beyond ASCII.
pub uninterp spec fn other_uppercase(c: char) -> bool;

/// Whether `char::is_lowercase` accepts a character beyond ASCII.
pub uninterp spec fn other_lowercase(c: char) -> bool;

/// Whether `char::is_whitespace` accepts a character beyond ASCII.
pub uninterp spec fn other_whitespace(c: char) -> bool;

/// The characters that `char::to_uppercase` yields for one beyond ASCII.
pub uninterp spec fn other_upper(c: char) -> Seq<char>;

/// The characters that `char::to_lowercase` yields for one beyond ASCII.
pub uninterp spec fn other_lower(c: char) -> Seq<char>;

/// Whether a character is a letter or a digit.
pub open spec fn alphanumeric(c: char) -> bool {
    if ascii(c) {
        'a' <= c <= 'z' || 'A' <= c <= 'Z' || '0' <= c <= '9'
    } else {
        other_alphanumeric(c)
    }
}

/// Whether a character is an uppercase letter.
pub open spec fn uppercase(c: char) -> bool {
    if ascii(c) {
        'A' <= c <= 'Z'
    } else {
        other_uppercase(c)
    }
}

/// Whether a character is a lowercase letter.
pub open spec fn lowercase(c: char) -> bool {
    if ascii(c) {
        'a' <= c <= 'z'
    } else {
        other_lowercase(c)
    }
}

/// Whether a character is white space: in ASCII the space and what stands from the tab to the
/// carriage return.
pub open spec fn whitespace(c: char) -> bool {
    if ascii(c) {
        c == ' ' || 0x09 <= c as u32 <= 0x0d
    } else {
        other_whitespace(c)
    }
}

/// The uppercase of a character.
pub open spec fn upper_mapping(c: char) -> Seq<char> {
    if ascii(c) {
        if 'a' <= c <= 'z' {
            seq![(c as u32 - 32) as char]
        } else {
            seq![c]
        }
    } else {
        other_upper(c)
    }
}

/// The lowercase of a character.
pub open spec fn lower_mapping(c: char) -> Seq<char> {
    if ascii(c) {
        if 'A' <= c <= 'Z' {
            seq![(c as u32 + 32) as char]
        } else {
            seq![c]
        }
    } else {
        other_lower(c)
    }
}

/// `char::is_alphanumeric`: in ASCII the letters and the digits; beyond it a function of the
/// character alone, given by Unicode's tables.
pub assume_specification[ char::is_alphanumeric ](c: char) -> (r: bool)
    ensures
        r == alphanumeric(c),
        !ascii(c) ==> r == other_alphanumeric(c),
;

/// `char::is_uppercase`: in ASCII the letters from `A` to `Z`; beyond it a function of the
/// character alone, given by Unicode's tables.
pub assume_specification[ char::is_uppercase ](c: char) -> (r: bool)
    ensures
        r == uppercase(c),
        !ascii(c) ==> r == other_uppercase(c),
;

/// `char::is_lowercase`: in ASCII the letters from `a` to `z`; beyond it a function of the
/// character alone, given by Unicode's tables.
pub assume_specification[ char::is_lowercase ](c: char) -> (r: bool)
    ensures
        r == lowercase(c),
        !ascii(c) ==> r == other_lowercase(c),
;

/// `char::is_whitespace`: in ASCII the space, the tab, the line feed, the vertical tab, the form
/// feed and the carriage return; beyond it a function of the character alone, given by Unicode's
/// tables.
pub assume_specification[ char::is_whitespace ](c: char) -> (r: bool)
    ensures
        r == whitespace(c),
        !ascii(c) ==> r == other_whitespace(c),
;

/// `char::to_uppercase`: the uppercase mapping of one character, which is one or more
/// characters. In ASCII it maps the letters from `a` to `z` to those from `A` to `Z`, and other
/// characters to themselves.
#[verifier::external_body]
pub(crate) fn to_upper(c: char) -> (r: Vec<char>)
    ensures
        r@ == upper_mapping(c),
        !ascii(c) ==> r@ == other_upper(c),
        r@.len() >= 1,
{
    c.to_uppercase().collect()
}

/// `char::to_lowercase`: the lowercase mapping of one character, which is one or more
/// characters. In ASCII it maps the letters from `A` to `Z` to those from `a` to `z`, and other
/// characters to themselves.
#[verifier::external_body]
pub(crate) fn to_lower(c: char) -> (r: Vec<char>)
    ensures
        r@ == lower_mapping(c),
        !ascii(c) ==> r@ == other_lower(c),
        r@.len() >= 1,
{
    c.to_lowercase().collect()
}

/// `String::push`: appends one character.
pub assume_specification[ String::push ](s: &mut String, c: char)
    ensures
        final(s)@ == old(s)@.push(c),
;

} // verus!
