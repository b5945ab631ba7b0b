//! Character classes that the lexer relies on.
//!
//! White space is the fixed list of Unicode `White_Space` code points. For
//! letters and digits the ASCII range is stated; beyond it the answers of
//! `char`'s methods in std are named, since Unicode tables define them.
use vstd::prelude::*;

verus! {

/// Unicode `White_Space`, which `char::is_whitespace` tests: tab, line
/// feed, vertical tab, form feed, carriage return, space, next line,
/// no-break space, ogham space mark, the spaces from en quad to hair space,
/// line and paragraph separators, narrow no-break space, medium
/// mathematical space and ideographic space.
#[verifier::opaque]
pub open spec fn char_is_whitespace(c: char) -> bool {
    let n = c as u32;
    ||| 0x09 <= n <= 0x0D
    ||| n == 0x20
    ||| n == 0x85
    ||| n == 0xA0
    ||| n == 0x1680
    ||| 0x2000 <= n <= 0x200A
    ||| n == 0x2028
    ||| n == 0x2029
    ||| n == 0x202F
    ||| n == 0x205F
    ||| n == 0x3000
}

/// An ASCII letter.
pub open spec fn is_ascii_letter(c: char) -> bool {
    ('a' <= c && c <= 'z') || ('A' <= c && c <= 'Z')
}

/// An ASCII decimal digit.
pub open spec fn is_ascii_digit(c: char) -> bool {
    '0' <= c && c <= '9'
}

/// What `char::is_alphabetic` returns for a character outside ASCII
/// (Unicode `Alphabetic`).
pub uninterp spec fn unicode_alphabetic(c: char) -> bool;

/// What `char::is_numeric` returns for a character outside ASCII (general
/// categories Nd, Nl, No).
pub uninterp spec fn unicode_numeric(c: char) -> bool;

/// `char::is_alphabetic`: in ASCII exactly the letters.
#[verifier::opaque]
pub open spec fn char_is_alphabetic(c: char) -> bool {
    if (c as u32) < 0x80 {
        is_ascii_letter(c)
    } else {
        unicode_alphabetic(c)
    }
}

/// `char::is_numeric`: in ASCII exactly the decimal digits.
#[verifier::opaque]
pub open spec fn char_is_numeric(c: char) -> bool {
    if (c as u32) < 0x80 {
        is_ascii_digit(c)
    } else {
        unicode_numeric(c)
    }
}

/// `char::is_whitespace` from std: whether `c` is one of the `White_Space`
/// code points.
#[verifier::external_body]
pub(crate) fn is_whitespace(c: char) -> (r: bool)
    ensures
        r == char_is_whitespace(c),
{
    c.is_whitespace()
}

/// `char::is_alphabetic` from std: an ASCII letter, or for a character
/// beyond ASCII, what Unicode's `Alphabetic` property says.
#[verifier::external_body]
pub(crate) fn is_alphabetic(c: char) -> (r: bool)
    ensures
        r == char_is_alphabetic(c),
        (c as u32) < 0x80 ==> r == is_ascii_letter(c),
        (c as u32) >= 0x80 ==> r == unicode_alphabetic(c),
{
    c.is_alphabetic()
}

/// `char::is_numeric` from std: an ASCII digit, or for a character beyond
/// ASCII, whether its general category is a number category.
#[verifier::external_body]
pub(crate) fn is_numeric(c: char) -> (r: bool)
    ensures
        r == char_is_numeric(c),
        (c as u32) < 0x80 ==> r == is_ascii_digit(c),
        (c as u32) >= 0x80 ==> r == unicode_numeric(c),
{
    c.is_numeric()
}

/// `char::is_alphanumeric` from std, which its documentation defines as
/// `is_alphabetic() || is_numeric()`.
#[verifier::external_body]
pub(crate) fn is_alphanumeric(c: char) -> (r: bool)
    ensures
        r == (char_is_alphabetic(c) || char_is_numeric(c)),
{
    c.is_alphanumeric()
}

/// `0-9`, `a-f` or `A-F`.
pub open spec fn is_hex_digit(c: char) -> bool {
    ('0' <= c && c <= '9') || ('a' <= c && c <= 'f') || ('A' <= c && c <= 'F')
}

/// The same test as `char::is_ascii_hexdigit`.
pub fn is_ascii_hexdigit(c: char) -> (r: bool)
    ensures
        r == is_hex_digit(c),
{
    ('0' <= c && c <= '9') || ('a' <= c && c <= 'f') || ('A' <= c && c <= 'F')
}

/// The value of `c` as a digit in base `radix` (at most 16), if it is one.
pub open spec fn digit_value(c: char, radix: nat) -> Option<nat> {
    let v: int = if '0' <= c && c <= '9' {
        c as int - '0' as int
    } else if 'a' <= c && c <= 'f' {
        c as int - 'a' as int + 10
    } else if 'A' <= c && c <= 'F' {
        c as int - 'A' as int + 10
    } else {
        99
    };
    if v < radix {
        Some(v as nat)
    } else {
        None
    }
}

/// Every character of `s` is a digit in base `radix`.
pub open spec fn all_digits(s: Seq<char>, radix: nat) -> bool {
    forall|i: int| 0 <= i < s.len() ==> (#[trigger] digit_value(s[i], radix)) is Some
}

/// The value of an all-digit string in base `radix`.
pub open spec fn digits_value(s: Seq<char>, radix: nat) -> nat
    decreases s.len(),
{
    if s.len() == 0 {
        0
    } else {
        digits_value(s.drop_last(), radix) * radix + digit_value(s.last(), radix).unwrap()
    }
}

/// What `i64::from_str_radix(s, radix)` gives for a string made of digit
/// candidates (no sign): `None` for an empty string, a non-digit or a value
/// above `i64::MAX`.
pub open spec fn parse_radix(s: Seq<char>, radix: nat) -> Option<i64> {
    if s.len() > 0 && all_digits(s, radix) && digits_value(s, radix) <= i64::MAX {
        Some(digits_value(s, radix) as i64)
    } else {
        None
    }
}

} // verus!
