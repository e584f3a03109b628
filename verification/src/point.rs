//! Points written as `(x, y)`, and two parsers of the simplest kind.

use vstd::prelude::*;
use crate::scan::{after_tag, signed_decimal, take_i32, take_tag, NoMatch};

verus! {

/// A point of the plane with whole coordinates.
#[derive(Debug, Clone, Copy, PartialEq, Eq, Structural)]
pub struct Point {
    pub x: i32,
    pub y: i32,
}

/// The integer of 32 bits that `s` begins with, and what follows it.
pub open spec fn i32_spec(s: Seq<char>) -> Option<(Seq<char>, int)> {
    signed_decimal(s, i32::MIN as int, i32::MAX as int)
}

/// The pair of integers that `s` begins with, and what follows it: two integers of 32
/// bits with a comma and a space between them.
pub open spec fn integer_pair_spec(s: Seq<char>) -> Option<(Seq<char>, (int, int))> {
    match i32_spec(s) {
        None => None,
        Some((s1, x)) => match after_tag(s1, seq![',', ' ']) {
            None => None,
            Some(s2) => match i32_spec(s2) {
                None => None,
                Some((rest, y)) => Some((rest, (x, y))),
            },
        },
    }
}

/// The point that `s` begins with, and what follows it: a pair of integers between
/// round brackets.
pub open spec fn point_spec(s: Seq<char>) -> Option<(Seq<char>, Point)> {
    match after_tag(s, seq!['(']) {
        None => None,
        Some(s1) => match integer_pair_spec(s1) {
            None => None,
            Some((s2, (x, y))) => match after_tag(s2, seq![')']) {
                None => None,
                Some(rest) => Some((rest, Point { x: x as i32, y: y as i32 })),
            },
        },
    }
}

/// Reads two integers with `, ` between them.
pub fn parse_integer_pair<'a>(input: &'a str) -> (r: Result<(&'a str, (i32, i32)), NoMatch>)
    ensures
        match integer_pair_spec(input@) {
            Some((rest, pair)) => r matches Ok((x, p)) && x@ == rest && p.0 == pair.0 && p.1
                == pair.1,
            None => r is Err,
        },
{
    proof {
        reveal_strlit(", ");
        assert(", "@ == seq![',', ' ']);
    }
    let (input, x) = match take_i32(input) {
        Ok(found) => found,
        Err(e) => {
            return Err(e);
        },
    };
    let input = match take_tag(input, ", ") {
        Ok(rest) => rest,
        Err(e) => {
            return Err(e);
        },
    };
    let (input, y) = match take_i32(input) {
        Ok(found) => found,
        Err(e) => {
            return Err(e);
        },
    };
    Ok((input, (x, y)))
}

/// Reads a point, such as `(3, -5)`.
pub fn parse_point<'a>(input: &'a str) -> (r: Result<(&'a str, Point), NoMatch>)
    ensures
        match point_spec(input@) {
            Some((rest, point)) => r matches Ok((x, p)) && x@ == rest && p == point,
            None => r is Err,
        },
{
    proof {
        reveal_strlit("(");
        reveal_strlit(")");
        assert("("@ == seq!['('] && ")"@ == seq![')']);
    }
    let input = match take_tag(input, "(") {
        Ok(rest) => rest,
        Err(e) => {
            return Err(e);
        },
    };
    let (input, (x, y)) = match parse_integer_pair(input) {
        Ok(found) => found,
        Err(e) => {
            return Err(e);
        },
    };
    let input = match take_tag(input, ")") {
        Ok(rest) => rest,
        Err(e) => {
            return Err(e);
        },
    };
    Ok((input, Point { x, y }))
}

/// Reads nothing: hands back the whole input and the empty text.
pub fn do_nothing_parser<'a>(input: &'a str) -> (r: Result<(&'a str, &'a str), NoMatch>)
    ensures
        r matches Ok((rest, taken)) && rest@ == input@ && taken@.len() == 0,
{
    proof {
        reveal_strlit("");
    }
    Ok((input, ""))
}

/// Reads the word `abc`.
pub fn parse_input<'a>(input: &'a str) -> (r: Result<(&'a str, &'a str), NoMatch>)
    ensures
        match after_tag(input@, seq!['a', 'b', 'c']) {
            Some(rest) => r matches Ok((x, taken)) && x@ == rest && taken@ == seq!['a', 'b', 'c'],
            None => r is Err,
        },
{
    proof {
        reveal_strlit("abc");
        assert("abc"@ == seq!['a', 'b', 'c']);
    }
    match take_tag(input, "abc") {
        Ok(rest) => Ok((rest, "abc")),
        Err(e) => Err(e),
    }
}

} // verus!
