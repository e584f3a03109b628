//! Building blocks for the small parsers of this crate: classes of characters, runs of
//! them, and decimal numbers.
//!
//! A parser of this crate reads the beginning of a text. Its model is a function from
//! the text to `None`, where the text does not begin as the parser asks, or to the rest
//! of the text together with what was read.

use vstd::prelude::*;
use vstd::string::StrSliceExecFns;
use crate::text::{gap, gap_end, index_of_seq, lemma_run, run, run_end, CharClass};

verus! {

/// The text did not begin as the parser asked.
#[derive(Debug, Clone, Copy, PartialEq, Eq, Structural)]
pub struct NoMatch;

/// The value of the decimal digit `c`.
pub open spec fn digit_value(c: char) -> nat {
    (c as nat - '0' as nat) as nat
}

/// The number that the decimal digits `digits` write.
pub open spec fn decimal(digits: Seq<char>) -> nat
    decreases digits.len(),
{
    if digits.len() == 0 {
        0
    } else {
        10 * decimal(digits.drop_last()) + digit_value(digits.last())
    }
}

/// The digits at the beginning of `s`.
pub open spec fn leading_digits(s: Seq<char>) -> Seq<char> {
    s.take(run(s, CharClass::Digit) as int)
}

/// Reads the decimal number at index `from`: the longest run of digits there.
///
/// `None` when no digit stands at `from` or when the number is greater than `max`;
/// else the number and the index after its last digit.
pub fn read_decimal(s: &Vec<char>, from: usize, max: u64) -> (r: Option<(u64, usize)>)
    requires
        from <= s.len(),
    ensures
        ({
            let digits = leading_digits(s@.skip(from as int));
            if digits.len() > 0 && decimal(digits) <= max {
                r matches Some((value, end)) && value == decimal(digits) && end == from
                    + digits.len() && end <= s.len()
            } else {
                r is None
            }
        }),
{
    let end = run_end(s, from, CharClass::Digit);
    let ghost tail = s@.skip(from as int);
    let ghost digits = leading_digits(tail);
    proof {
        lemma_run(tail, CharClass::Digit);
    }
    if end == from {
        return None;
    }
    let mut value: u64 = 0;
    let mut i: usize = from;
    while i < end
        invariant
            from <= i <= end <= s.len(),
            tail == s@.skip(from as int),
            digits == leading_digits(tail),
            end - from == run(tail, CharClass::Digit),
            forall|k: int| 0 <= k < end - from ==> CharClass::Digit.holds(tail[k]),
            value == decimal(digits.take(i - from)),
            value <= max,
        decreases end - i,
    {
        let c = s[i];
        assert(c == tail[i - from]);
        let d: u64 = (c as u32 - '0' as u32) as u64;
        assert(d == digit_value(c));
        let ghost longer = digits.take(i - from + 1);
        assert(longer.drop_last() == digits.take(i - from));
        assert(longer.last() == c);
        if d > max || value > (max - d) / 10 {
            proof {
                assert(decimal(longer) == 10 * value + d);
                lemma_decimal_grows(digits, i - from + 1);
            }
            return None;
        }
        value = value * 10 + d;
        i += 1;
    }
    assert(digits.take(end - from) == digits);
    Some((value, end))
}

/// A number is at least as great as the number that any prefix of its digits writes.
pub proof fn lemma_decimal_grows(digits: Seq<char>, n: int)
    requires
        0 <= n <= digits.len(),
    ensures
        decimal(digits.take(n)) <= decimal(digits),
    decreases digits.len() - n,
{
    if n < digits.len() {
        lemma_decimal_grows(digits, n + 1);
        assert(digits.take(n + 1).drop_last() == digits.take(n));
    } else {
        assert(digits.take(n) == digits);
    }
}

/// What is left of `input` from its character `at` on.
pub fn rest_from<'a>(input: &'a str, at: usize) -> (rest: &'a str)
    requires
        at <= input@.len(),
    ensures
        rest@ == input@.skip(at as int),
{
    let n = input.unicode_len();
    input.substring_char(at, n)
}

/// What follows `lit` at the beginning of `s`; `None` when `s` does not begin with `lit`.
pub open spec fn after_tag(s: Seq<char>, lit: Seq<char>) -> Option<Seq<char>> {
    if lit.is_prefix_of(s) {
        Some(s.skip(lit.len() as int))
    } else {
        None
    }
}

/// Whether `lit` stands in `s` at index `from`.
pub fn tag_at(s: &Vec<char>, from: usize, lit: &str) -> (b: bool)
    requires
        from <= s.len(),
    ensures
        b == lit@.is_prefix_of(s@.skip(from as int)),
        b ==> from + lit@.len() <= s.len(),
{
    let pattern = crate::text::chars_of(lit);
    crate::text::occurs_at(s, from, &pattern)
}

/// The part of `input` from its character `from` up to its character `to`.
pub fn part_of<'a>(input: &'a str, from: usize, to: usize) -> (part: &'a str)
    requires
        from <= to <= input@.len(),
    ensures
        part@ == input@.subrange(from as int, to as int),
{
    input.substring_char(from, to)
}

/// The integer at the beginning of `s`, if it lies between `min` and `max`, and what
/// follows it: an optional `-` or `+`, then the longest run of digits, which has to hold
/// one digit at least.
pub open spec fn signed_decimal(s: Seq<char>, min: int, max: int) -> Option<(Seq<char>, int)> {
    let signed = s.len() > 0 && (s[0] == '-' || s[0] == '+');
    let body = if signed {
        s.skip(1)
    } else {
        s
    };
    let digits = leading_digits(body);
    let value = if s.len() > 0 && s[0] == '-' {
        -(decimal(digits) as int)
    } else {
        decimal(digits) as int
    };
    if digits.len() > 0 && min <= value <= max {
        Some((body.skip(digits.len() as int), value))
    } else {
        None
    }
}

/// The number at the beginning of `s`, if it is at most `max`, and what follows it: the
/// longest run of digits, which has to hold one digit at least.
pub open spec fn unsigned_decimal(s: Seq<char>, max: int) -> Option<(Seq<char>, int)> {
    let digits = leading_digits(s);
    if digits.len() > 0 && decimal(digits) <= max {
        Some((s.skip(digits.len() as int), decimal(digits) as int))
    } else {
        None
    }
}

/// The run of characters of `class` that `s` begins with, which has to hold one
/// character at least, and what follows it.
pub open spec fn take_run1(s: Seq<char>, class: CharClass) -> Option<(Seq<char>, Seq<char>)> {
    let n = run(s, class) as int;
    if n >= 1 {
        Some((s.skip(n), s.take(n)))
    } else {
        None
    }
}

/// `s` without the run of characters of `class` that it begins with.
pub open spec fn skip_run(s: Seq<char>, class: CharClass) -> Seq<char> {
    s.skip(run(s, class) as int)
}

/// What stands in `s` before the first place where `lit` occurs, which has to be one
/// character at least, and what stands from that place on. `None` when `lit` occurs
/// nowhere in `s` or at its very beginning.
pub open spec fn take_until1(s: Seq<char>, lit: Seq<char>) -> Option<(Seq<char>, Seq<char>)> {
    let at = index_of_seq(s, lit, 0);
    if 1 <= at < s.len() {
        Some((s.skip(at), s.take(at)))
    } else {
        None
    }
}

/// What stands in `s` before its first line break, and what stands from there on; all of
/// `s` when it holds no line break. A line break is a line feed, or a carriage return
/// with a line feed after it: `None` when the first carriage return or line feed of `s`
/// is a carriage return that no line feed follows.
pub open spec fn till_line_ending(s: Seq<char>) -> Option<(Seq<char>, Seq<char>)> {
    let at = gap(s, CharClass::LineBreak) as int;
    if at < s.len() && s[at] == '\r' && !(at + 1 < s.len() && s[at + 1] == '\n') {
        None
    } else {
        Some((s.skip(at), s.take(at)))
    }
}

/// The index at which the line that begins at index `from` ends: that of its line
/// break, or the length of `s`. `None` when the line ends with a carriage return that
/// no line feed follows.
pub fn line_end(s: &Vec<char>, from: usize) -> (r: Option<usize>)
    requires
        from <= s.len(),
    ensures
        match till_line_ending(s@.skip(from as int)) {
            Some((rest, line)) => r matches Some(end) && from <= end <= s.len() && line
                == s@.subrange(from as int, end as int) && rest == s@.skip(end as int),
            None => r is None,
        },
{
    let end = gap_end(s, from, CharClass::LineBreak);
    let ghost tail = s@.skip(from as int);
    assert(tail.take(end - from) == s@.subrange(from as int, end as int));
    assert(tail.skip(end - from) == s@.skip(end as int));
    if end < s.len() && s[end] == '\r' && !(end + 1 < s.len() && s[end + 1] == '\n') {
        None
    } else {
        Some(end)
    }
}

/// The index of the first place at or after `from` where `lit` occurs, when that place
/// lies after `from`. `None` when `lit` occurs nowhere from `from` on, or at `from`
/// itself.
pub fn until1(s: &Vec<char>, from: usize, lit: &str) -> (r: Option<usize>)
    requires
        from <= s.len(),
    ensures
        match take_until1(s@.skip(from as int), lit@) {
            Some((rest, taken)) => r matches Some(at) && from < at < s.len() && taken
                == s@.subrange(from as int, at as int) && rest == s@.skip(at as int),
            None => r is None,
        },
{
    let pattern = crate::text::chars_of(lit);
    let at = crate::text::find_seq(s, &pattern, from);
    let ghost tail = s@.skip(from as int);
    proof {
        lemma_index_of_seq_shift(s@, lit@, from as int, from as int);
        assert(tail.take(at - from) == s@.subrange(from as int, at as int));
        assert(tail.skip(at - from) == s@.skip(at as int));
    }
    if at > from && at < s.len() {
        Some(at)
    } else {
        None
    }
}

/// Searching a suffix of `s` for `pat` finds the same place as searching `s` from
/// where the suffix begins.
pub proof fn lemma_index_of_seq_shift(s: Seq<char>, pat: Seq<char>, begin: int, from: int)
    requires
        0 <= begin <= from <= s.len(),
    ensures
        index_of_seq(s, pat, from) - begin == index_of_seq(s.skip(begin), pat, from - begin),
    decreases s.len() - from,
{
    if from < s.len() {
        assert(s.skip(begin).skip(from - begin) == s.skip(from));
        if !pat.is_prefix_of(s.skip(from)) {
            lemma_index_of_seq_shift(s, pat, begin, from + 1);
        }
    }
}

/// Reads the run of characters of `class` that `input` begins with, which has to hold
/// one character at least.
pub fn take_class1<'a>(input: &'a str, class: CharClass) -> (r: Result<(&'a str, &'a str), NoMatch>)
    ensures
        match take_run1(input@, class) {
            Some((rest, taken)) => r matches Ok((x, t)) && x@ == rest && t@ == taken,
            None => r is Err,
        },
{
    let s = crate::text::chars_of(input);
    assert(s@.skip(0) == s@);
    let end = run_end(&s, 0, class);
    if end == 0 {
        return Err(NoMatch);
    }
    Ok((rest_from(input, end), part_of(input, 0, end)))
}

/// Passes over the run of characters of `class` that `input` begins with.
pub fn skip_class<'a>(input: &'a str, class: CharClass) -> (rest: &'a str)
    ensures
        rest@ == skip_run(input@, class),
{
    let s = crate::text::chars_of(input);
    assert(s@.skip(0) == s@);
    let end = run_end(&s, 0, class);
    rest_from(input, end)
}

/// Passes over `lit` at the beginning of `input`.
pub fn take_tag<'a>(input: &'a str, lit: &str) -> (r: Result<&'a str, NoMatch>)
    ensures
        match after_tag(input@, lit@) {
            Some(rest) => r matches Ok(x) && x@ == rest,
            None => r is Err,
        },
{
    let s = crate::text::chars_of(input);
    assert(s@.skip(0) == s@);
    if tag_at(&s, 0, lit) {
        let n = lit.unicode_len();
        Ok(rest_from(input, n))
    } else {
        Err(NoMatch)
    }
}

/// Reads the line that `input` begins with, up to its line break.
pub fn take_line<'a>(input: &'a str) -> (r: Result<(&'a str, &'a str), NoMatch>)
    ensures
        match till_line_ending(input@) {
            Some((rest, line)) => r matches Ok((x, l)) && x@ == rest && l@ == line,
            None => r is Err,
        },
{
    let s = crate::text::chars_of(input);
    assert(s@.skip(0) == s@);
    match line_end(&s, 0) {
        Some(end) => Ok((rest_from(input, end), part_of(input, 0, end))),
        None => Err(NoMatch),
    }
}

/// One step of a fixed pattern.
#[derive(Debug, Clone, Copy, PartialEq, Eq, Structural)]
pub enum Piece {
    /// A run of characters of a class, one at least.
    Run(CharClass),
    /// One given character.
    Mark(char),
}

/// What follows the piece `piece` at the beginning of `s`.
pub open spec fn after_piece(s: Seq<char>, piece: Piece) -> Option<Seq<char>> {
    match piece {
        Piece::Run(class) => if run(s, class) >= 1 {
            Some(skip_run(s, class))
        } else {
            None
        },
        Piece::Mark(c) => if s.len() > 0 && s[0] == c {
            Some(s.skip(1))
        } else {
            None
        },
    }
}

/// What follows the pieces `pieces`, one after another, at the beginning of `s`.
pub open spec fn after_pieces(s: Seq<char>, pieces: Seq<Piece>) -> Option<Seq<char>>
    decreases pieces.len(),
{
    if pieces.len() == 0 {
        Some(s)
    } else {
        match after_piece(s, pieces[0]) {
            None => None,
            Some(rest) => after_pieces(rest, pieces.drop_first()),
        }
    }
}

/// The index after the pieces `pieces`, read one after another from index `from` on.
pub fn skip_pieces(s: &Vec<char>, from: usize, pieces: &Vec<Piece>) -> (r: Option<usize>)
    requires
        from <= s.len(),
    ensures
        match after_pieces(s@.skip(from as int), pieces@) {
            Some(rest) => r matches Some(end) && from <= end <= s.len() && rest == s@.skip(
                end as int,
            ),
            None => r is None,
        },
{
    let mut at: usize = from;
    let mut k: usize = 0;
    assert(pieces@.skip(0) == pieces@);
    while k < pieces.len()
        invariant
            from <= at <= s.len(),
            k <= pieces.len(),
            after_pieces(s@.skip(from as int), pieces@) == after_pieces(
                s@.skip(at as int),
                pieces@.skip(k as int),
            ),
        decreases pieces.len() - k,
    {
        assert(pieces@.skip(k as int).drop_first() == pieces@.skip(k + 1));
        assert(pieces@.skip(k as int)[0] == pieces@[k as int]);
        match pieces[k] {
            Piece::Run(class) => {
                let end = run_end(s, at, class);
                if end == at {
                    return None;
                }
                assert(s@.skip(at as int).skip(end - at) == s@.skip(end as int));
                at = end;
            },
            Piece::Mark(c) => {
                if at < s.len() && s[at] == c {
                    assert(s@.skip(at as int).skip(1) == s@.skip(at + 1));
                    at += 1;
                } else {
                    return None;
                }
            },
        }
        k += 1;
    }
    Some(at)
}

/// Reads the number that `input` begins with, if it is at most `max`: the longest run
/// of digits, which has to hold one digit at least.
pub fn take_unsigned<'a>(input: &'a str, max: u64) -> (r: Result<(&'a str, u64), NoMatch>)
    ensures
        match unsigned_decimal(input@, max as int) {
            Some((rest, value)) => r matches Ok((x, v)) && x@ == rest && v == value,
            None => r is Err,
        },
{
    let s = crate::text::chars_of(input);
    assert(s@.skip(0) == s@);
    match read_decimal(&s, 0, max) {
        Some((value, end)) => Ok((rest_from(input, end), value)),
        None => Err(NoMatch),
    }
}

/// Reads the integer of 32 bits that `input` begins with: an optional `-` or `+`, then
/// the longest run of digits, which has to hold one digit at least.
pub fn take_i32<'a>(input: &'a str) -> (r: Result<(&'a str, i32), NoMatch>)
    ensures
        match signed_decimal(input@, i32::MIN as int, i32::MAX as int) {
            Some((rest, value)) => r matches Ok((x, v)) && x@ == rest && v == value,
            None => r is Err,
        },
{
    let s = crate::text::chars_of(input);
    let negative = s.len() > 0 && s[0] == '-';
    let signed = s.len() > 0 && (s[0] == '-' || s[0] == '+');
    let from: usize = if signed {
        1
    } else {
        0
    };
    assert(s@.skip(0) == s@);
    let max: u64 = if negative {
        0x8000_0000
    } else {
        0x7fff_ffff
    };
    match read_decimal(&s, from, max) {
        None => Err(NoMatch),
        Some((value, end)) => {
            assert(s@.skip(from as int).skip(end - from) == s@.skip(end as int));
            let number: i32 = if !negative {
                value as i32
            } else if value == 0x8000_0000 {
                i32::MIN
            } else {
                -(value as i32)
            };
            Ok((rest_from(input, end), number))
        },
    }
}

/// What stands in `s` before the first place where `lit` occurs, and what stands from
/// that place on. `None` when `lit` occurs nowhere in `s`.
pub open spec fn take_until0(s: Seq<char>, lit: Seq<char>) -> Option<(Seq<char>, Seq<char>)> {
    let at = index_of_seq(s, lit, 0);
    if at < s.len() {
        Some((s.skip(at), s.take(at)))
    } else {
        None
    }
}

/// The index of the first place at or after `from` where `lit` occurs; `None` when it
/// occurs nowhere from `from` on.
pub fn until0(s: &Vec<char>, from: usize, lit: &str) -> (r: Option<usize>)
    requires
        from <= s.len(),
    ensures
        match take_until0(s@.skip(from as int), lit@) {
            Some((rest, taken)) => r matches Some(at) && from <= at < s.len() && taken
                == s@.subrange(from as int, at as int) && rest == s@.skip(at as int),
            None => r is None,
        },
{
    let pattern = crate::text::chars_of(lit);
    let at = crate::text::find_seq(s, &pattern, from);
    let ghost tail = s@.skip(from as int);
    proof {
        lemma_index_of_seq_shift(s@, lit@, from as int, from as int);
        assert(tail.take(at - from) == s@.subrange(from as int, at as int));
        assert(tail.skip(at - from) == s@.skip(at as int));
    }
    if at < s.len() {
        Some(at)
    } else {
        None
    }
}

/// The first `n` characters of `s`, and what follows them; `None` when `s` is shorter.
pub open spec fn take_count(s: Seq<char>, n: int) -> Option<(Seq<char>, Seq<char>)> {
    if 0 <= n <= s.len() {
        Some((s.skip(n), s.take(n)))
    } else {
        None
    }
}

/// Reads the first `n` characters of `input`.
pub fn take_chars<'a>(input: &'a str, n: usize) -> (r: Result<(&'a str, &'a str), NoMatch>)
    ensures
        match take_count(input@, n as int) {
            Some((rest, taken)) => r matches Ok((x, t)) && x@ == rest && t@ == taken,
            None => r is Err,
        },
{
    if n > input.unicode_len() {
        return Err(NoMatch);
    }
    Ok((rest_from(input, n), part_of(input, 0, n)))
}

/// Whether the two texts are the same.
pub fn same_text(a: &str, b: &str) -> (r: bool)
    ensures
        r == (a@ == b@),
{
    let x = crate::text::chars_of(a);
    let y = crate::text::chars_of(b);
    crate::text::same_chars(&x, &y)
}

/// `text` without the white space that surrounds it.
pub fn trim_text<'a>(text: &'a str) -> (r: &'a str)
    ensures
        r@ == crate::text::trim(text@, CharClass::Whitespace),
{
    let s = crate::text::chars_of(text);
    let (a, b) = crate::text::trim_bounds(&s, 0, s.len(), CharClass::Whitespace);
    assert(s@.subrange(0, s@.len() as int) == s@);
    part_of(text, a, b)
}

/// The characters outside `class` that `s` begins with, which have to be one at least,
/// and what stands from the first character of `class` on.
pub open spec fn take_gap1(s: Seq<char>, class: CharClass) -> Option<(Seq<char>, Seq<char>)> {
    let n = gap(s, class) as int;
    if n >= 1 {
        Some((s.skip(n), s.take(n)))
    } else {
        None
    }
}

/// Reads the characters outside `class` that `input` begins with, which have to be one
/// at least.
pub fn take_outside1<'a>(input: &'a str, class: CharClass) -> (r: Result<
    (&'a str, &'a str),
    NoMatch,
>)
    ensures
        match take_gap1(input@, class) {
            Some((rest, taken)) => r matches Ok((x, t)) && x@ == rest && t@ == taken,
            None => r is Err,
        },
{
    let s = crate::text::chars_of(input);
    assert(s@.skip(0) == s@);
    let end = gap_end(&s, 0, class);
    if end == 0 {
        return Err(NoMatch);
    }
    Ok((rest_from(input, end), part_of(input, 0, end)))
}

/// The views of the strings of `list`, in order.
pub open spec fn string_views(list: Seq<String>) -> Seq<Seq<char>> {
    list.map_values(|s: String| s@)
}

/// The length of what continues a list at the beginning of `s`: as often as can be, one
/// of the characters of `seps` and then a run of characters of `class`, one at least.
pub open spec fn more_groups(s: Seq<char>, class: CharClass, seps: Seq<char>) -> nat
    decreases s.len(),
{
    if s.len() > 0 && seps.contains(s[0]) && run(s.skip(1), class) >= 1 {
        proof {
            lemma_run(s.skip(1), class);
        }
        1 + run(s.skip(1), class) + more_groups(
            s.skip(1 + run(s.skip(1), class) as int),
            class,
            seps,
        )
    } else {
        0
    }
}

/// The list that `s` begins with, as text, and what follows it: runs of characters of
/// `class`, one character at least each, with one of the characters of `seps` between
/// each two. A separator after which no run follows is not part of the list.
pub open spec fn take_groups(s: Seq<char>, class: CharClass, seps: Seq<char>) -> Option<
    (Seq<char>, Seq<char>),
> {
    let n = run(s, class);
    if n >= 1 {
        let total = n + more_groups(s.skip(n as int), class, seps);
        Some((s.skip(total as int), s.take(total as int)))
    } else {
        None
    }
}

/// Whether `c` is one of the characters of `set`.
pub fn is_one_of(c: char, set: &Vec<char>) -> (b: bool)
    ensures
        b == set@.contains(c),
{
    let mut k: usize = 0;
    while k < set.len()
        invariant
            k <= set.len(),
            forall|m: int| 0 <= m < k ==> set@[m] != c,
        decreases set.len() - k,
    {
        if set[k] == c {
            return true;
        }
        k += 1;
    }
    false
}

/// Reads a list of runs of characters of `class` with one of the characters of `seps`
/// between each two, and hands it back as text.
pub fn take_list<'a>(input: &'a str, class: CharClass, seps: &str) -> (r: Result<
    (&'a str, &'a str),
    NoMatch,
>)
    ensures
        match take_groups(input@, class, seps@) {
            Some((rest, list)) => r matches Ok((x, l)) && x@ == rest && l@ == list,
            None => r is Err,
        },
{
    let s = crate::text::chars_of(input);
    let marks = crate::text::chars_of(seps);
    assert(s@.skip(0) == s@);
    let first = run_end(&s, 0, class);
    if first == 0 {
        return Err(NoMatch);
    }
    let mut at: usize = first;
    loop
        invariant
            first <= at <= s.len(),
            marks@ == seps@,
            first + more_groups(s@.skip(first as int), class, seps@) == at + more_groups(
                s@.skip(at as int),
                class,
                seps@,
            ),
        ensures
            first <= at <= s.len(),
            at == first + more_groups(s@.skip(first as int), class, seps@),
        decreases s.len() - at,
    {
        if at < s.len() && is_one_of(s[at], &marks) {
            assert(s@.skip(at as int).skip(1) == s@.skip(at + 1));
            let end = run_end(&s, at + 1, class);
            if end > at + 1 {
                assert(s@.skip(at as int).skip(1 + (end - at - 1)) == s@.skip(end as int));
                at = end;
            } else {
                break ;
            }
        } else {
            break ;
        }
    }
    Ok((rest_from(input, at), part_of(input, 0, at)))
}

} // verus!
