//! Byte classes of RFC 3986 path segments.

use vstd::prelude::*;

verus! {

/// `/`, which separates the segments of a path.
pub const SLASH: u8 = 0x2f;

/// `{`, which opens a parameter.
pub const OPEN_BRACE: u8 = 0x7b;

/// `}`, which closes a parameter.
pub const CLOSE_BRACE: u8 = 0x7d;

/// `%`, which opens a percent-encoded triple.
pub const PERCENT: u8 = 0x25;

/// `:`.
pub const COLON: u8 = 0x3a;

/// `@`.
pub const AT: u8 = 0x40;

/// `ALPHA`: an ASCII letter.
pub open spec fn is_alpha(b: u8) -> bool {
    (0x41 <= b && b <= 0x5a) || (0x61 <= b && b <= 0x7a)
}

/// `DIGIT`: an ASCII decimal digit.
pub open spec fn is_digit(b: u8) -> bool {
    0x30 <= b && b <= 0x39
}

/// An ASCII letter or decimal digit.
pub open spec fn is_alphanumeric(b: u8) -> bool {
    is_alpha(b) || is_digit(b)
}

/// `HEXDIG`, in either case.
pub open spec fn is_hex_digit(b: u8) -> bool {
    is_digit(b) || (0x41 <= b && b <= 0x46) || (0x61 <= b && b <= 0x66)
}

/// The number that a hexadecimal digit stands for.
pub open spec fn hex_value(b: u8) -> int
    recommends
        is_hex_digit(b),
{
    if is_digit(b) {
        b - 0x30
    } else if 0x41 <= b && b <= 0x46 {
        b - 0x41 + 10
    } else {
        b - 0x61 + 10
    }
}

/// `unreserved`: a letter, a digit, or one of `-._~`.
pub open spec fn is_unreserved(b: u8) -> bool {
    is_alphanumeric(b) || b == 0x2d || b == 0x2e || b == 0x5f || b == 0x7e
}

/// `sub-delims`: one of `!$&'()*+,;=`.
pub open spec fn is_sub_delimiter(b: u8) -> bool {
    b == 0x21 || b == 0x24 || b == 0x26 || b == 0x27 || b == 0x28 || b == 0x29 || b == 0x2a
        || b == 0x2b || b == 0x2c || b == 0x3b || b == 0x3d
}

/// A `pchar` that is a single byte: everything but a percent-encoded triple.
pub open spec fn is_plain_pchar(b: u8) -> bool {
    is_unreserved(b) || is_sub_delimiter(b) || b == COLON || b == AT
}

/// Blank inside the braces of a parameter: a space or a tab.
pub open spec fn is_blank(b: u8) -> bool {
    b == 0x20 || b == 0x09
}

/// Tests for an ASCII letter.
pub fn alpha(b: u8) -> (r: bool)
    ensures
        r == is_alpha(b),
{
    (0x41 <= b && b <= 0x5a) || (0x61 <= b && b <= 0x7a)
}

/// Tests for an ASCII letter or decimal digit.
pub fn alphanumeric(b: u8) -> (r: bool)
    ensures
        r == is_alphanumeric(b),
{
    alpha(b) || (0x30 <= b && b <= 0x39)
}

/// Tests for a space or a tab.
pub fn blank(b: u8) -> (r: bool)
    ensures
        r == is_blank(b),
{
    b == 0x20 || b == 0x09
}

/// Tests for an unreserved byte.
pub fn unreserved(b: u8) -> (r: bool)
    ensures
        r == is_unreserved(b),
{
    alphanumeric(b) || b == 0x2d || b == 0x2e || b == 0x5f || b == 0x7e
}

/// Tests for a sub-delimiter.
pub fn sub_delimiter(b: u8) -> (r: bool)
    ensures
        r == is_sub_delimiter(b),
{
    b == 0x21 || b == 0x24 || (0x26 <= b && b <= 0x2c) || b == 0x3b || b == 0x3d
}

/// The number that `b` stands for as a hexadecimal digit, if it is one.
pub fn hex_digit_value(b: u8) -> (r: Option<u8>)
    ensures
        r is Some <==> is_hex_digit(b),
        r matches Some(value) ==> value == hex_value(b) && value < 16,
{
    if 0x30 <= b && b <= 0x39 {
        Some(b - 0x30)
    } else if 0x41 <= b && b <= 0x46 {
        Some(b - 0x41 + 10)
    } else if 0x61 <= b && b <= 0x66 {
        Some(b - 0x61 + 10)
    } else {
        None
    }
}

} // verus!
