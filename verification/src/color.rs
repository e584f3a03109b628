//! Colours written as `#` and six hexadecimal digits.

use vstd::prelude::*;
use core::num::ParseIntError;
use crate::number::{digit_of, is_digit_of, radix_value, unsigned_in_radix};
use crate::scan::{after_tag, part_of, rest_from, tag_at, NoMatch};
use crate::text::{chars_of, CharClass};

verus! {

/// A colour: the amounts of red, green and blue.
#[derive(Debug, Clone, Copy, PartialEq, Eq, Structural)]
pub struct Color {
    pub red: u8,
    pub green: u8,
    pub blue: u8,
}

/// Reads `input` as a hexadecimal number below 256.
///
/// Succeeds exactly when `input` is an optional `+` followed by hexadecimal digits, at
/// least one, that write a number below 256.
pub fn from_hex(input: &str) -> (r: Result<u8, ParseIntError>)
    ensures
        match unsigned_in_radix(input@, 16) {
            Some(v) => if v <= u8::MAX {
                r matches Ok(x) && x == v
            } else {
                r is Err
            },
            None => r is Err,
        },
{
    u8::from_str_radix(input, 16)
}

/// Whether `c` is a hexadecimal digit: `0` to `9`, `a` to `f` or `A` to `F`.
pub fn is_hex_digit(c: char) -> (b: bool)
    ensures
        b == CharClass::HexDigit.holds(c),
{
    CharClass::HexDigit.has(c)
}

/// The number below 256 that two hexadecimal digits at the beginning of `s` write, and
/// what follows them.
pub open spec fn hex_primary_spec(s: Seq<char>) -> Option<(Seq<char>, u8)> {
    if s.len() >= 2 && CharClass::HexDigit.holds(s[0]) && CharClass::HexDigit.holds(s[1]) {
        Some((s.skip(2), radix_value(s.take(2), 16) as u8))
    } else {
        None
    }
}

/// The colour that `s` begins with, and what follows it: a `#` and three numbers of
/// two hexadecimal digits each, for red, green and blue.
pub open spec fn hex_color_spec(s: Seq<char>) -> Option<(Seq<char>, Color)> {
    match after_tag(s, seq!['#']) {
        None => None,
        Some(s1) => match hex_primary_spec(s1) {
            None => None,
            Some((s2, red)) => match hex_primary_spec(s2) {
                None => None,
                Some((s3, green)) => match hex_primary_spec(s3) {
                    None => None,
                    Some((rest, blue)) => Some((rest, Color { red, green, blue })),
                },
            },
        },
    }
}

/// Two hexadecimal digits write a number below 256.
pub proof fn lemma_two_hex_digits(pair: Seq<char>)
    requires
        pair.len() == 2,
        CharClass::HexDigit.holds(pair[0]),
        CharClass::HexDigit.holds(pair[1]),
    ensures
        unsigned_in_radix(pair, 16) == Some(radix_value(pair, 16)),
        radix_value(pair, 16) <= u8::MAX,
{
    assert(is_digit_of(pair[0], 16) && is_digit_of(pair[1], 16));
    let one = pair.drop_last();
    assert(one.drop_last().len() == 0);
    assert(radix_value(one, 16) == digit_of(pair[0]).unwrap()) by {
        assert(radix_value(one.drop_last(), 16) == 0);
        assert(one.last() == pair[0]);
    }
    assert(radix_value(pair, 16) == 16 * radix_value(one, 16) + digit_of(pair[1]).unwrap());
}

/// Reads two hexadecimal digits as a number.
///
/// Succeeds exactly when `input` begins with two hexadecimal digits; what follows them
/// is handed back with the number.
pub fn hex_primary(input: &str) -> (r: Result<(&str, u8), NoMatch>)
    ensures
        match hex_primary_spec(input@) {
            Some((rest, value)) => r matches Ok((x, v)) && x@ == rest && v == value,
            None => r is Err,
        },
{
    let s = chars_of(input);
    if s.len() < 2 || !is_hex_digit(s[0]) || !is_hex_digit(s[1]) {
        return Err(NoMatch);
    }
    let pair = part_of(input, 0, 2);
    proof {
        lemma_two_hex_digits(pair@);
    }
    match from_hex(pair) {
        Ok(value) => Ok((rest_from(input, 2), value)),
        Err(_) => Err(NoMatch),
    }
}

/// Reads a colour: a `#` and three numbers of two hexadecimal digits each.
///
/// Succeeds exactly when `input` begins with `#` and six hexadecimal digits; what
/// follows them is handed back with the colour.
pub fn hex_color(input: &str) -> (r: Result<(&str, Color), NoMatch>)
    ensures
        match hex_color_spec(input@) {
            Some((rest, color)) => r matches Ok((x, c)) && x@ == rest && c == color,
            None => r is Err,
        },
{
    let s = chars_of(input);
    proof {
        reveal_strlit("#");
        assert("#"@ == seq!['#']);
    }
    if !tag_at(&s, 0, "#") {
        assert(s@.skip(0) == s@);
        return Err(NoMatch);
    }
    assert(s@.skip(0) == s@);
    let input = rest_from(input, 1);
    let (input, red) = match hex_primary(input) {
        Ok(found) => found,
        Err(e) => {
            return Err(e);
        },
    };
    let (input, green) = match hex_primary(input) {
        Ok(found) => found,
        Err(e) => {
            return Err(e);
        },
    };
    let (input, blue) = match hex_primary(input) {
        Ok(found) => found,
        Err(e) => {
            return Err(e);
        },
    };
    Ok((input, Color { red, green, blue }))
}

} // verus!
