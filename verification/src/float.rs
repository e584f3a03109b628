//! Numbers with a fraction and an exponent, recognized as text.
//!
//! This module finds where such a number ends; the number is handed on as the text that
//! writes it.
//!
//! There are two readers. [`take_double`] is the strict one: it reads `nan` and `inf`
//! without a sign only, never `infinity` whole, and an exponent that breaks off is a
//! failure for good. [`take_float`] is the lenient one: it reads a sign before `inf` and
//! `infinity`, and an exponent that breaks off makes the text no number.

use vstd::prelude::*;
use crate::scan::{part_of, rest_from, NoMatch};
use crate::text::{chars_of, run, run_end, CharClass};

verus! {

/// Why a parser that can break off gave no result.
#[derive(Debug, Clone, Copy, PartialEq, Eq, Structural)]
pub enum Halt {
    /// The text did not begin as the parser asked; a repetition ends here with what it
    /// has, and an alternative may be tried.
    NoMatch,
    /// The text began as the parser asked and then broke off: a number has the sign of
    /// an exponent and no digit for it. A repetition fails with this, and no alternative
    /// is tried.
    Failure,
}

/// What a parser that can break off finds at the beginning of a text.
pub enum Parsed<T> {
    /// What follows the part that was read, and what was read.
    Match(Seq<char>, T),
    /// See [`Halt::NoMatch`].
    NoMatch,
    /// See [`Halt::Failure`].
    Failure,
}

/// The number of characters of the sign that `s` begins with: 1 for `+` or `-`, else 0.
pub open spec fn sign_len(s: Seq<char>) -> int {
    if s.len() > 0 && (s[0] == '+' || s[0] == '-') {
        1
    } else {
        0
    }
}

/// The index after the digits and the point of the number that begins at index `i`:
/// digits, then perhaps a point and perhaps more digits; or a point and digits. `None`
/// when neither stands at `i`.
pub open spec fn mantissa_end(s: Seq<char>, i: int) -> Option<int> {
    let d = run(s.skip(i), CharClass::Digit) as int;
    if d >= 1 {
        if i + d < s.len() && s[i + d] == '.' {
            Some(i + d + 1 + run(s.skip(i + d + 1), CharClass::Digit))
        } else {
            Some(i + d)
        }
    } else if 0 <= i < s.len() && s[i] == '.' && run(s.skip(i + 1), CharClass::Digit) >= 1 {
        Some(i + 1 + run(s.skip(i + 1), CharClass::Digit))
    } else {
        None
    }
}

/// The index after the exponent that begins at index `j`: `e` or `E`, perhaps a sign,
/// and digits. `j` itself when no `e` or `E` stands there; `None` when one stands there
/// and no digit follows it and its sign.
pub open spec fn exponent_end(s: Seq<char>, j: int) -> Option<int> {
    if 0 <= j < s.len() && (s[j] == 'e' || s[j] == 'E') {
        let k = j + 1 + sign_len(s.skip(j + 1));
        if run(s.skip(k), CharClass::Digit) >= 1 {
            Some(k + run(s.skip(k), CharClass::Digit))
        } else {
            None
        }
    } else {
        Some(j)
    }
}

/// Whether `c` is the small letter `small` or its capital. Of the small letters, only
/// those of `nan` and `infinity` are given a capital here.
pub open spec fn is_letter(c: char, small: char) -> bool {
    c == small || (small == 'n' && c == 'N') || (small == 'a' && c == 'A') || (small == 'i' && c
        == 'I') || (small == 'f' && c == 'F') || (small == 't' && c == 'T') || (small == 'y' && c
        == 'Y')
}

/// Whether `s` holds the letters `word`, in either case, at index `i`. `word` is given
/// in small letters.
pub open spec fn caseless_at(s: Seq<char>, i: int, word: Seq<char>) -> bool {
    &&& 0 <= i
    &&& i + word.len() <= s.len()
    &&& forall|k: int| 0 <= k < word.len() ==> is_letter(s[i + k], #[trigger] word[k])
}

/// The number that `s` begins with, as the strict reader sees it, and what follows it.
///
/// A number is an optional sign, digits with an optional point among or before them,
/// and an optional exponent; an exponent without digits is a [`Parsed::Failure`]. Where
/// no number stands, the words `nan` and `inf`, in either case and without a sign, are
/// read in its place.
pub open spec fn double_spec(s: Seq<char>) -> Parsed<Seq<char>> {
    match mantissa_end(s, sign_len(s)) {
        Some(j) => match exponent_end(s, j) {
            Some(end) => Parsed::Match(s.skip(end), s.take(end)),
            None => Parsed::Failure,
        },
        None => if caseless_at(s, 0, seq!['n', 'a', 'n']) || caseless_at(s, 0, seq!['i', 'n', 'f']) {
            Parsed::Match(s.skip(3), s.take(3))
        } else {
            Parsed::NoMatch
        },
    }
}

/// The number that `s` begins with, as the lenient reader sees it, and what follows it.
///
/// A text that begins with `n` or `N` has to begin with `nan`, in either case. Any
/// other number is an optional sign and then either `inf` or `infinity`, in either case,
/// or digits with an optional point among or before them and an optional exponent. An
/// exponent without digits makes the text no number.
pub open spec fn float_spec(s: Seq<char>) -> Option<(Seq<char>, Seq<char>)> {
    let i = sign_len(s);
    let end: Option<int> = if s.len() > 0 && (s[0] == 'n' || s[0] == 'N') {
        if caseless_at(s, 0, seq!['n', 'a', 'n']) {
            Some(3)
        } else {
            None
        }
    } else if i < s.len() && (s[i] == 'i' || s[i] == 'I') {
        if caseless_at(s, i, seq!['i', 'n', 'f']) {
            if caseless_at(s, i + 3, seq!['i', 'n', 'i', 't', 'y']) {
                Some(i + 8)
            } else {
                Some(i + 3)
            }
        } else {
            None
        }
    } else {
        match mantissa_end(s, i) {
            Some(j) => exponent_end(s, j),
            None => None,
        }
    };
    match end {
        Some(end) => Some((s.skip(end), s.take(end))),
        None => None,
    }
}

/// Whether a sign stands at index `i`.
fn sign_at(s: &Vec<char>, i: usize) -> (n: usize)
    requires
        i <= s.len(),
    ensures
        n == sign_len(s@.skip(i as int)),
        i + n <= s.len(),
{
    if i < s.len() && (s[i] == '+' || s[i] == '-') {
        1
    } else {
        0
    }
}

/// The index after the digits and the point of the number that begins at index `i`.
fn read_mantissa(s: &Vec<char>, i: usize) -> (r: Option<usize>)
    requires
        i <= s.len(),
    ensures
        match mantissa_end(s@, i as int) {
            Some(j) => r == Some(j as usize) && i < j <= s.len(),
            None => r is None,
        },
{
    let d = run_end(s, i, CharClass::Digit);
    if d > i {
        if d < s.len() && s[d] == '.' {
            Some(run_end(s, d + 1, CharClass::Digit))
        } else {
            Some(d)
        }
    } else if i < s.len() && s[i] == '.' {
        let e = run_end(s, i + 1, CharClass::Digit);
        if e > i + 1 {
            Some(e)
        } else {
            None
        }
    } else {
        None
    }
}

/// The index after the exponent that begins at index `j`.
fn read_exponent(s: &Vec<char>, j: usize) -> (r: Option<usize>)
    requires
        j <= s.len(),
    ensures
        match exponent_end(s@, j as int) {
            Some(end) => r == Some(end as usize) && j <= end <= s.len(),
            None => r is None,
        },
{
    if j < s.len() && (s[j] == 'e' || s[j] == 'E') {
        let k = j + 1 + sign_at(s, j + 1);
        let end = run_end(s, k, CharClass::Digit);
        if end > k {
            Some(end)
        } else {
            None
        }
    } else {
        Some(j)
    }
}

/// Whether `c` is the small letter `small` or its capital.
fn letter_is(c: char, small: char) -> (b: bool)
    ensures
        b == is_letter(c, small),
{
    c == small || (small == 'n' && c == 'N') || (small == 'a' && c == 'A') || (small == 'i' && c
        == 'I') || (small == 'f' && c == 'F') || (small == 't' && c == 'T') || (small == 'y' && c
        == 'Y')
}

/// Whether the letters of `word` stand at index `i`, in either case.
fn caseless(s: &Vec<char>, i: usize, word: &str) -> (b: bool)
    requires
        i <= s.len(),
    ensures
        b == caseless_at(s@, i as int, word@),
{
    let w = chars_of(word);
    if w.len() > s.len() - i {
        return false;
    }
    let mut k: usize = 0;
    while k < w.len()
        invariant
            k <= w.len() <= s.len() - i,
            w@ == word@,
            forall|m: int| 0 <= m < k ==> is_letter(s@[i + m], #[trigger] w@[m]),
        decreases w.len() - k,
    {
        if !letter_is(s[i + k], w[k]) {
            return false;
        }
        k += 1;
    }
    true
}

/// Reads a number as [`double_spec`] describes it and hands back its text.
pub fn take_double<'a>(input: &'a str) -> (r: Result<(&'a str, &'a str), Halt>)
    ensures
        match double_spec(input@) {
            Parsed::Match(rest, text) => r matches Ok((x, t)) && x@ == rest && t@ == text,
            Parsed::NoMatch => r == Err::<(&str, &str), Halt>(Halt::NoMatch),
            Parsed::Failure => r == Err::<(&str, &str), Halt>(Halt::Failure),
        },
{
    let s = chars_of(input);
    assert(s@.skip(0) == s@);
    let i = sign_at(&s, 0);
    proof {
        reveal_strlit("nan");
        reveal_strlit("inf");
        assert("nan"@ == seq!['n', 'a', 'n'] && "inf"@ == seq!['i', 'n', 'f']);
    }
    match read_mantissa(&s, i) {
        Some(j) => match read_exponent(&s, j) {
            Some(end) => Ok((rest_from(input, end), part_of(input, 0, end))),
            None => Err(Halt::Failure),
        },
        None => {
            if caseless(&s, 0, "nan") || caseless(&s, 0, "inf") {
                Ok((rest_from(input, 3), part_of(input, 0, 3)))
            } else {
                Err(Halt::NoMatch)
            }
        },
    }
}

/// Reads a number as [`float_spec`] describes it and hands back its text.
pub fn take_float<'a>(input: &'a str) -> (r: Result<(&'a str, &'a str), NoMatch>)
    ensures
        match float_spec(input@) {
            Some((rest, text)) => r matches Ok((x, t)) && x@ == rest && t@ == text,
            None => r is Err,
        },
{
    let s = chars_of(input);
    assert(s@.skip(0) == s@);
    let i = sign_at(&s, 0);
    proof {
        reveal_strlit("nan");
        reveal_strlit("inf");
        reveal_strlit("inity");
        assert("nan"@ == seq!['n', 'a', 'n'] && "inf"@ == seq!['i', 'n', 'f']);
        assert("inity"@ == seq!['i', 'n', 'i', 't', 'y']);
    }
    let end: Option<usize> = if s.len() > 0 && (s[0] == 'n' || s[0] == 'N') {
        if caseless(&s, 0, "nan") {
            Some(3)
        } else {
            None
        }
    } else if i < s.len() && (s[i] == 'i' || s[i] == 'I') {
        if caseless(&s, i, "inf") {
            if caseless(&s, i + 3, "inity") {
                Some(i + 8)
            } else {
                Some(i + 3)
            }
        } else {
            None
        }
    } else {
        match read_mantissa(&s, i) {
            Some(j) => read_exponent(&s, j),
            None => None,
        }
    };
    match end {
        Some(end) => Ok((rest_from(input, end), part_of(input, 0, end))),
        None => Err(NoMatch),
    }
}

/// A number that is read leaves less text than it was read from.
pub proof fn lemma_double_shortens(s: Seq<char>)
    ensures
        double_spec(s) matches Parsed::Match(rest, _) ==> rest.len() < s.len(),
{
    let i = sign_len(s);
    crate::text::lemma_run(s.skip(i), CharClass::Digit);
    if let Some(j) = mantissa_end(s, i) {
        let d = run(s.skip(i), CharClass::Digit) as int;
        if d >= 1 {
            if i + d < s.len() && s[i + d] == '.' {
                crate::text::lemma_run(s.skip(i + d + 1), CharClass::Digit);
            }
        } else {
            crate::text::lemma_run(s.skip(i + 1), CharClass::Digit);
        }
        if let Some(end) = exponent_end(s, j) {
            if end != j {
                let k = j + 1 + sign_len(s.skip(j + 1));
                crate::text::lemma_run(s.skip(k), CharClass::Digit);
            }
        }
    }
}

/// The same result, with the error of a parser that cannot break off turned into
/// [`Halt::NoMatch`].
pub fn or_halt<T>(r: Result<T, NoMatch>) -> (h: Result<T, Halt>)
    ensures
        match r {
            Ok(v) => h == Ok::<T, Halt>(v),
            Err(_) => h == Err::<T, Halt>(Halt::NoMatch),
        },
{
    match r {
        Ok(v) => Ok(v),
        Err(_) => Err(Halt::NoMatch),
    }
}

/// A number that is read leaves less text than it was read from.
pub proof fn lemma_float_shortens(s: Seq<char>)
    ensures
        float_spec(s) matches Some((rest, _)) ==> rest.len() < s.len(),
{
    let i = sign_len(s);
    if s.len() > 0 && (s[0] == 'n' || s[0] == 'N') {
    } else if i < s.len() && (s[i] == 'i' || s[i] == 'I') {
    } else {
        crate::text::lemma_run(s.skip(i), CharClass::Digit);
        if let Some(j) = mantissa_end(s, i) {
            let d = run(s.skip(i), CharClass::Digit) as int;
            if d >= 1 {
                if i + d < s.len() && s[i + d] == '.' {
                    crate::text::lemma_run(s.skip(i + d + 1), CharClass::Digit);
                }
            } else {
                crate::text::lemma_run(s.skip(i + 1), CharClass::Digit);
            }
            if let Some(end) = exponent_end(s, j) {
                if end != j {
                    let k = j + 1 + sign_len(s.skip(j + 1));
                    crate::text::lemma_run(s.skip(k), CharClass::Digit);
                }
            }
        }
    }
}

} // verus!
