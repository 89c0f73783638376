use vstd::prelude::*;

verus! {

/// What `char::is_alphanumeric` answers for a character: whether Unicode
/// classes it as alphabetic or numeric.
pub uninterp spec fn unicode_alphanumeric(c: char) -> bool;

/// What `char::is_whitespace` answers for a character: whether it has the
/// Unicode property `White_Space`.
pub uninterp spec fn unicode_whitespace(c: char) -> bool;

/// The character lies in the ASCII range.
pub open spec fn is_ascii(c: char) -> bool {
    c <= '\x7f'
}

/// The ASCII letters and digits.
pub open spec fn ascii_alphanumeric(c: char) -> bool {
    ('0' <= c <= '9') || ('a' <= c <= 'z') || ('A' <= c <= 'Z')
}

/// The ASCII characters with the property `White_Space`: tab, line feed,
/// vertical tab, form feed, carriage return and space.
pub open spec fn ascii_whitespace(c: char) -> bool {
    ('\t' <= c <= '\r') || c == ' '
}

/// `char::is_alphanumeric` of the standard library. The result is named by
/// [`unicode_alphanumeric`]; within ASCII it is true of letters and digits
/// and of nothing else.
pub assume_specification[ char::is_alphanumeric ](c: char) -> (b: bool)
    ensures
        b == unicode_alphanumeric(c),
        is_ascii(c) ==> b == ascii_alphanumeric(c),
;

/// `char::is_whitespace` of the standard library. The result is named by
/// [`unicode_whitespace`]; within ASCII it is true of U+0009 to U+000D and
/// of the space, and of nothing else.
pub assume_specification[ char::is_whitespace ](c: char) -> (b: bool)
    ensures
        b == unicode_whitespace(c),
        is_ascii(c) ==> b == ascii_whitespace(c),
;

/// Alphabetic or numeric: spelled out within ASCII, as Unicode has it beyond.
pub open spec fn alphanumeric(c: char) -> bool {
    if is_ascii(c) {
        ascii_alphanumeric(c)
    } else {
        unicode_alphanumeric(c)
    }
}

/// White space: spelled out within ASCII, as Unicode has it beyond.
pub open spec fn whitespace(c: char) -> bool {
    if is_ascii(c) {
        ascii_whitespace(c)
    } else {
        unicode_whitespace(c)
    }
}

/// A character that may occur in a word: alphanumeric, or the underscore.
pub open spec fn word_char(c: char) -> bool {
    c == '_' || alphanumeric(c)
}

/// The value of a digit, for the digits `0-9`, `a-f` and `A-F`.
pub open spec fn digit_value(c: char) -> Option<nat> {
    if '0' <= c <= '9' {
        Some((c as u32 - '0' as u32) as nat)
    } else if 'a' <= c <= 'f' {
        Some((c as u32 - 'a' as u32 + 10) as nat)
    } else if 'A' <= c <= 'F' {
        Some((c as u32 - 'A' as u32 + 10) as nat)
    } else {
        None
    }
}

/// A digit in the given radix, which is at most 16.
pub open spec fn is_digit(c: char, radix: nat) -> bool {
    digit_value(c) matches Some(v) && v < radix
}

/// A decimal digit or the dot: what a decimal literal is made of.
pub open spec fn decimal_char(c: char) -> bool {
    is_digit(c, 10) || c == '.'
}

/// Whether `c` is white space.
pub(crate) fn is_space(c: char) -> (b: bool)
    ensures
        b == whitespace(c),
{
    c.is_whitespace()
}

/// Whether `c` may occur in a word.
pub(crate) fn is_word_char(c: char) -> (b: bool)
    ensures
        b == word_char(c),
{
    c == '_' || c.is_alphanumeric()
}

/// The value of `c` as a digit in `radix`, if it is one.
pub(crate) fn to_digit(c: char, radix: u32) -> (r: Option<u32>)
    requires
        radix <= 16,
    ensures
        r is Some <==> is_digit(c, radix as nat),
        r matches Some(v) ==> digit_value(c) == Some(v as nat),
{
    let code: u32 = c as u32;
    let value: u32 = if '0' <= c && c <= '9' {
        code - 48
    } else if 'a' <= c && c <= 'f' {
        code - 97 + 10
    } else if 'A' <= c && c <= 'F' {
        code - 65 + 10
    } else {
        radix
    };
    if value < radix {
        Some(value)
    } else {
        None
    }
}

/// Whether `c` is a digit in `radix`.
pub(crate) fn is_radix_digit(c: char, radix: u32) -> (b: bool)
    requires
        radix <= 16,
    ensures
        b == is_digit(c, radix as nat),
{
    to_digit(c, radix).is_some()
}

/// Whether `c` is a decimal digit or the dot.
pub(crate) fn is_decimal_char(c: char) -> (b: bool)
    ensures
        b == decimal_char(c),
{
    c == '.' || is_radix_digit(c, 10)
}

} // verus!
