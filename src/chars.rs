//! Character classification shared between the email and URL scanners.
use vstd::prelude::*;

verus! {

/// `lo <= c <= hi`, by code point.
pub open spec fn in_range(c: char, lo: char, hi: char) -> bool {
    lo as u32 <= c as u32 <= hi as u32
}

pub open spec fn spec_is_ascii_alpha(c: char) -> bool {
    in_range(c, 'a', 'z') || in_range(c, 'A', 'Z')
}

pub open spec fn spec_is_ascii_digit(c: char) -> bool {
    in_range(c, '0', '9')
}

pub open spec fn spec_is_ascii_alphanumeric(c: char) -> bool {
    spec_is_ascii_alpha(c) || spec_is_ascii_digit(c)
}

pub open spec fn spec_is_hex_digit(c: char) -> bool {
    spec_is_ascii_digit(c) || in_range(c, 'a', 'f') || in_range(c, 'A', 'F')
}

/// Code points at or above U+0080.
pub open spec fn spec_is_non_ascii(c: char) -> bool {
    c as u32 >= 0x80
}

/// The code points with the Unicode `White_Space` property.
pub open spec fn spec_is_unicode_whitespace(c: char) -> bool {
    let u = c as u32;
    (0x09 <= u <= 0x0D) || u == 0x20 || u == 0x85 || u == 0xA0 || u == 0x1680 || (0x2000 <= u
        <= 0x200A) || u == 0x2028 || u == 0x2029 || u == 0x202F || u == 0x205F || u == 0x3000
}

/// ASCII "atext" of an email local part, and any non-ASCII code point that
/// is not whitespace.
pub open spec fn spec_is_email_local_char(c: char) -> bool {
    spec_is_ascii_alphanumeric(c) || c == '!' || c == '#' || c == '$' || c == '%' || c == '&'
        || c == '\'' || c == '*' || c == '+' || c == '-' || c == '/' || c == '=' || c == '?'
        || c == '^' || c == '_' || c == '`' || c == '{' || c == '|' || c == '}' || c == '~' || (
    spec_is_non_ascii(c) && !spec_is_unicode_whitespace(c))
}

/// Letters, digits and `+-.`.
pub open spec fn spec_is_scheme_char(c: char) -> bool {
    spec_is_ascii_alphanumeric(c) || c == '+' || c == '-' || c == '.'
}

pub fn is_ascii_alpha(c: char) -> (r: bool)
    ensures
        r == spec_is_ascii_alpha(c),
{
    let u = c as u32;
    ('a' as u32 <= u && u <= 'z' as u32) || ('A' as u32 <= u && u <= 'Z' as u32)
}

pub fn is_ascii_digit(c: char) -> (r: bool)
    ensures
        r == spec_is_ascii_digit(c),
{
    let u = c as u32;
    '0' as u32 <= u && u <= '9' as u32
}

pub fn is_hex_digit(c: char) -> (r: bool)
    ensures
        r == spec_is_hex_digit(c),
{
    let u = c as u32;
    is_ascii_digit(c) || ('a' as u32 <= u && u <= 'f' as u32) || ('A' as u32 <= u && u
        <= 'F' as u32)
}

pub fn is_non_ascii(c: char) -> (r: bool)
    ensures
        r == spec_is_non_ascii(c),
{
    c as u32 >= 0x80
}

pub fn is_unicode_whitespace(c: char) -> (r: bool)
    ensures
        r == spec_is_unicode_whitespace(c),
{
    let u = c as u32;
    (0x09 <= u && u <= 0x0D) || u == 0x20 || u == 0x85 || u == 0xA0 || u == 0x1680 || (0x2000
        <= u && u <= 0x200A) || u == 0x2028 || u == 0x2029 || u == 0x202F || u == 0x205F || u
        == 0x3000
}

/// Check if a character is valid in an email local part (before `@`).
pub fn is_email_local_char(c: char) -> (r: bool)
    ensures
        r == spec_is_email_local_char(c),
{
    if is_ascii_alpha(c) || is_ascii_digit(c) {
        return true;
    }
    match c {
        '!' | '#' | '$' | '%' | '&' | '\'' | '*' | '+' | '-' | '/' | '=' | '?' | '^' | '_' | '`'
        | '{' | '|' | '}' | '~' => true,
        _ => is_non_ascii(c) && !is_unicode_whitespace(c),
    }
}

pub fn is_scheme_char(c: char) -> (r: bool)
    ensures
        r == spec_is_scheme_char(c),
{
    is_ascii_alpha(c) || is_ascii_digit(c) || c == '+' || c == '-' || c == '.'
}

} // verus!
