//! Character-level helpers shared by the parsers of this crate.
//!
//! Text is modelled as `Seq<char>`. The executable functions work on `Vec<char>`, whose
//! view is that sequence, and on `&str` / `String` at the boundary of the crate.

use vstd::prelude::*;
use vstd::std_specs::iter::IteratorSpec;

verus! {

/// Whether `c` separates tokens: a space, a tab, a line feed or a carriage return.
pub open spec fn is_space(c: char) -> bool {
    CharClass::Multispace.holds(c)
}

/// Whether `c` separates tokens.
pub fn is_space_char(c: char) -> (b: bool)
    ensures
        b == is_space(c),
{
    CharClass::Multispace.has(c)
}

/// A class of characters.
#[derive(Debug, Clone, Copy, PartialEq, Eq, Structural)]
pub enum CharClass {
    /// `0` to `9`.
    Digit,
    /// `a` to `z` and `A` to `Z`.
    Alpha,
    /// A digit or a letter.
    Alphanumeric,
    /// A digit, `a` to `f` or `A` to `F`.
    HexDigit,
    /// A space or a tab.
    Blank,
    /// A space, a tab, a carriage return or a line feed.
    Multispace,
    /// A line feed.
    LineFeed,
    /// A carriage return or a line feed.
    LineBreak,
    /// The one character given.
    Is(char),
    /// White space as Unicode defines it: the characters U+0009 to U+000D, U+0020,
    /// U+0085, U+00A0, U+1680, U+2000 to U+200A, U+2028, U+2029, U+202F, U+205F and
    /// U+3000.
    Whitespace,
}

impl CharClass {
    /// Whether `c` belongs to the class.
    pub open spec fn holds(self, c: char) -> bool {
        match self {
            CharClass::Digit => '0' <= c <= '9',
            CharClass::Alpha => ('a' <= c <= 'z') || ('A' <= c <= 'Z'),
            CharClass::Alphanumeric => ('0' <= c <= '9') || ('a' <= c <= 'z') || ('A' <= c <= 'Z'),
            CharClass::HexDigit => ('0' <= c <= '9') || ('a' <= c <= 'f') || ('A' <= c <= 'F'),
            CharClass::Blank => c == ' ' || c == '\t',
            CharClass::Multispace => c == ' ' || c == '\t' || c == '\r' || c == '\n',
            CharClass::LineFeed => c == '\n',
            CharClass::LineBreak => c == '\r' || c == '\n',
            CharClass::Is(only) => c == only,
            CharClass::Whitespace => ('\u{9}' <= c <= '\u{d}') || c == ' ' || c == '\u{85}' || c
                == '\u{a0}' || c == '\u{1680}' || ('\u{2000}' <= c <= '\u{200a}') || c
                == '\u{2028}' || c == '\u{2029}' || c == '\u{202f}' || c == '\u{205f}' || c
                == '\u{3000}',
        }
    }

    /// Whether `c` belongs to the class.
    pub fn has(self, c: char) -> (b: bool)
        ensures
            b == self.holds(c),
    {
        match self {
            CharClass::Digit => '0' <= c && c <= '9',
            CharClass::Alpha => ('a' <= c && c <= 'z') || ('A' <= c && c <= 'Z'),
            CharClass::Alphanumeric => ('0' <= c && c <= '9') || ('a' <= c && c <= 'z') || ('A' <= c
                && c <= 'Z'),
            CharClass::HexDigit => ('0' <= c && c <= '9') || ('a' <= c && c <= 'f') || ('A' <= c
                && c <= 'F'),
            CharClass::Blank => c == ' ' || c == '\t',
            CharClass::Multispace => c == ' ' || c == '\t' || c == '\r' || c == '\n',
            CharClass::LineFeed => c == '\n',
            CharClass::LineBreak => c == '\r' || c == '\n',
            CharClass::Is(only) => c == only,
            CharClass::Whitespace => ('\u{9}' <= c && c <= '\u{d}') || c == ' ' || c == '\u{85}'
                || c == '\u{a0}' || c == '\u{1680}' || ('\u{2000}' <= c && c <= '\u{200a}') || c
                == '\u{2028}' || c == '\u{2029}' || c == '\u{202f}' || c == '\u{205f}' || c
                == '\u{3000}',
        }
    }
}

/// The number of characters at the beginning of `s` that belong to `class`, up to the
/// first that does not.
pub open spec fn run(s: Seq<char>, class: CharClass) -> nat
    decreases s.len(),
{
    if s.len() > 0 && class.holds(s[0]) {
        1 + run(s.drop_first(), class)
    } else {
        0
    }
}

/// [`run`] counts a prefix of characters of the class that ends at the first other
/// character or at the end of the text.
pub proof fn lemma_run(s: Seq<char>, class: CharClass)
    ensures
        run(s, class) <= s.len(),
        forall|k: int| 0 <= k < run(s, class) ==> class.holds(s[k]),
        run(s, class) < s.len() ==> !class.holds(s[run(s, class) as int]),
    decreases s.len(),
{
    if s.len() > 0 && class.holds(s[0]) {
        let t = s.drop_first();
        lemma_run(t, class);
        assert forall|k: int| 0 <= k < run(s, class) implies class.holds(s[k]) by {
            if k > 0 {
                assert(s[k] == t[k - 1]);
            }
        }
        if run(s, class) < s.len() {
            assert(s[run(s, class) as int] == t[run(t, class) as int]);
        }
    }
}

/// The index after the run of characters of `class` that begins at index `from`.
pub fn run_end(s: &Vec<char>, from: usize, class: CharClass) -> (end: usize)
    requires
        from <= s.len(),
    ensures
        end == from + run(s@.skip(from as int), class),
        from <= end <= s.len(),
{
    let mut i: usize = from;
    while i < s.len() && class.has(s[i])
        invariant
            from <= i <= s.len(),
            from + run(s@.skip(from as int), class) == i + run(s@.skip(i as int), class),
        decreases s.len() - i,
    {
        assert(s@.skip(i as int).drop_first() == s@.skip(i + 1));
        i += 1;
    }
    proof {
        lemma_run(s@.skip(i as int), class);
    }
    i
}

/// The number of characters at the beginning of `s` that do not belong to `class`, up
/// to the first that does.
pub open spec fn gap(s: Seq<char>, class: CharClass) -> nat
    decreases s.len(),
{
    if s.len() > 0 && !class.holds(s[0]) {
        1 + gap(s.drop_first(), class)
    } else {
        0
    }
}

/// [`gap`] counts a prefix of characters outside the class that ends at the first
/// character of the class or at the end of the text.
pub proof fn lemma_gap(s: Seq<char>, class: CharClass)
    ensures
        gap(s, class) <= s.len(),
        forall|k: int| 0 <= k < gap(s, class) ==> !class.holds(s[k]),
        gap(s, class) < s.len() ==> class.holds(s[gap(s, class) as int]),
    decreases s.len(),
{
    if s.len() > 0 && !class.holds(s[0]) {
        let t = s.drop_first();
        lemma_gap(t, class);
        assert forall|k: int| 0 <= k < gap(s, class) implies !class.holds(s[k]) by {
            if k > 0 {
                assert(s[k] == t[k - 1]);
            }
        }
        if gap(s, class) < s.len() {
            assert(s[gap(s, class) as int] == t[gap(t, class) as int]);
        }
    }
}

/// The index of the first character of `class` at or after index `from`, or the length
/// of `s`.
pub fn gap_end(s: &Vec<char>, from: usize, class: CharClass) -> (end: usize)
    requires
        from <= s.len(),
    ensures
        end == from + gap(s@.skip(from as int), class),
        from <= end <= s.len(),
{
    let mut i: usize = from;
    while i < s.len() && !class.has(s[i])
        invariant
            from <= i <= s.len(),
            from + gap(s@.skip(from as int), class) == i + gap(s@.skip(i as int), class),
        decreases s.len() - i,
    {
        assert(s@.skip(i as int).drop_first() == s@.skip(i + 1));
        i += 1;
    }
    proof {
        lemma_gap(s@.skip(i as int), class);
    }
    i
}

/// The index of the first `c` in `s` at or after `from`, or `s.len()` when there is none.
pub open spec fn index_of(s: Seq<char>, c: char, from: int) -> int
    decreases s.len() - from,
{
    if from < 0 || from >= s.len() {
        s.len() as int
    } else if s[from] == c {
        from
    } else {
        index_of(s, c, from + 1)
    }
}

/// The index of the first place at or after `from` where `pat` occurs in `s`, or `s.len()`
/// when it occurs nowhere.
pub open spec fn index_of_seq(s: Seq<char>, pat: Seq<char>, from: int) -> int
    decreases s.len() - from,
{
    if from < 0 || from >= s.len() {
        s.len() as int
    } else if pat.is_prefix_of(s.skip(from)) {
        from
    } else {
        index_of_seq(s, pat, from + 1)
    }
}

/// `s` without the characters of `class` that lead it.
pub open spec fn trim_start(s: Seq<char>, class: CharClass) -> Seq<char>
    decreases s.len(),
{
    if s.len() > 0 && class.holds(s[0]) {
        trim_start(s.drop_first(), class)
    } else {
        s
    }
}

/// `s` without the characters of `class` that trail it.
pub open spec fn trim_end(s: Seq<char>, class: CharClass) -> Seq<char>
    decreases s.len(),
{
    if s.len() > 0 && class.holds(s.last()) {
        trim_end(s.drop_last(), class)
    } else {
        s
    }
}

/// `s` without the characters of `class` that surround it.
pub open spec fn trim(s: Seq<char>, class: CharClass) -> Seq<char> {
    trim_end(trim_start(s, class), class)
}

/// [`index_of`] is the least index at or after `from` that holds `c`.
pub proof fn lemma_index_of(s: Seq<char>, c: char, from: int)
    requires
        0 <= from <= s.len(),
    ensures
        from <= index_of(s, c, from) <= s.len(),
        index_of(s, c, from) < s.len() ==> s[index_of(s, c, from)] == c,
        forall|k: int| from <= k < index_of(s, c, from) ==> s[k] != c,
    decreases s.len() - from,
{
    if from < s.len() && s[from] != c {
        lemma_index_of(s, c, from + 1);
    }
}

/// [`index_of_seq`] is the least index at or after `from` where `pat` begins.
pub proof fn lemma_index_of_seq(s: Seq<char>, pat: Seq<char>, from: int)
    requires
        0 <= from <= s.len(),
    ensures
        from <= index_of_seq(s, pat, from) <= s.len(),
        index_of_seq(s, pat, from) < s.len() ==> pat.is_prefix_of(
            s.skip(index_of_seq(s, pat, from)),
        ),
        forall|k: int|
            from <= k < index_of_seq(s, pat, from) ==> !pat.is_prefix_of(#[trigger] s.skip(k)),
    decreases s.len() - from,
{
    if from < s.len() && !pat.is_prefix_of(s.skip(from)) {
        lemma_index_of_seq(s, pat, from + 1);
    }
}

/// Trimming keeps a contiguous part of the text, takes away characters of the class
/// only, and leaves none of them at either end.
pub proof fn law_trim(s: Seq<char>, class: CharClass)
    ensures
        exists|a: int, b: int|
            0 <= a <= b <= s.len() && #[trigger] s.subrange(a, b) == trim(s, class) && (forall|
                k: int,
            |
                0 <= k < a ==> class.holds(s[k])) && (forall|k: int|
                b <= k < s.len() ==> class.holds(s[k])),
        trim(s, class).len() > 0 ==> !class.holds(trim(s, class)[0]) && !class.holds(
            trim(s, class).last(),
        ),
{
    lemma_trim_start(s, class);
    let a = s.len() - trim_start(s, class).len();
    lemma_trim_end(trim_start(s, class), class);
    let b = a + trim(s, class).len();
    assert(s.subrange(a, b) == trim(s, class));
    assert forall|k: int| b <= k < s.len() implies class.holds(s[k]) by {
        assert(s[k] == trim_start(s, class)[k - a]);
    }
    if trim(s, class).len() > 0 {
        assert(trim(s, class)[0] == trim_start(s, class)[0]);
    }
}

/// [`trim_start`] drops a prefix of characters of the class and stops at the first
/// other character.
pub proof fn lemma_trim_start(s: Seq<char>, class: CharClass)
    ensures
        trim_start(s, class).len() <= s.len(),
        trim_start(s, class) == s.skip(s.len() - trim_start(s, class).len()),
        forall|k: int| 0 <= k < s.len() - trim_start(s, class).len() ==> class.holds(s[k]),
        trim_start(s, class).len() > 0 ==> !class.holds(trim_start(s, class)[0]),
    decreases s.len(),
{
    if s.len() > 0 && class.holds(s[0]) {
        let t = s.drop_first();
        lemma_trim_start(t, class);
        let n = t.len() - trim_start(t, class).len();
        assert(t.skip(n) == s.skip(n + 1));
        assert forall|k: int| 0 <= k < s.len() - trim_start(s, class).len() implies class.holds(
            s[k],
        ) by {
            if k > 0 {
                assert(s[k] == t[k - 1]);
            }
        }
    } else {
        assert(s.skip(0) == s);
    }
}

/// [`trim_end`] drops a suffix of characters of the class and stops at the last other
/// character.
pub proof fn lemma_trim_end(s: Seq<char>, class: CharClass)
    ensures
        trim_end(s, class).len() <= s.len(),
        trim_end(s, class) == s.take(trim_end(s, class).len() as int),
        forall|k: int| trim_end(s, class).len() <= k < s.len() ==> class.holds(s[k]),
        trim_end(s, class).len() > 0 ==> !class.holds(trim_end(s, class).last()),
    decreases s.len(),
{
    if s.len() > 0 && class.holds(s.last()) {
        let t = s.drop_last();
        lemma_trim_end(t, class);
        assert(t.take(trim_end(t, class).len() as int) == s.take(trim_end(t, class).len() as int));
        assert forall|k: int| trim_end(s, class).len() <= k < s.len() implies class.holds(
            s[k],
        ) by {
            if k < t.len() {
                assert(s[k] == t[k]);
            }
        }
    } else {
        assert(s.take(s.len() as int) == s);
    }
}

/// `String::push` appends one character to the end of the string.
pub assume_specification[ String::push ](s: &mut String, ch: char)
    ensures
        final(s)@ == old(s)@.push(ch),
;

/// The characters of `s`, in order.
pub fn chars_of(s: &str) -> (v: Vec<char>)
    ensures
        v@ == s@,
{
    broadcast use vstd::string::group_string_axioms;

    let mut v: Vec<char> = Vec::new();
    for c in it: s.chars()
        invariant
            it.seq() == s@,
            v@ == s@.take(it.index() as int),
    {
        assert(s@.take(it.index() + 1) == s@.take(it.index() as int).push(c));
        v.push(c);
    }
    assert(s@.take(s@.len() as int) == s@);
    v
}

/// The string made of the characters `v[from..to]`.
pub fn string_of(v: &Vec<char>, from: usize, to: usize) -> (s: String)
    requires
        from <= to <= v.len(),
    ensures
        s@ == v@.subrange(from as int, to as int),
{
    let mut s = String::new();
    let mut i: usize = from;
    while i < to
        invariant
            from <= i <= to <= v.len(),
            s@ == v@.subrange(from as int, i as int),
        decreases to - i,
    {
        s.push(v[i]);
        i += 1;
        assert(v@.subrange(from as int, i as int) == v@.subrange(from as int, i - 1).push(
            v@[i - 1],
        ));
    }
    s
}

/// The string made of all the characters of `v`.
pub fn to_string(v: &Vec<char>) -> (s: String)
    ensures
        s@ == v@,
{
    assert(v@.subrange(0, v@.len() as int) == v@);
    string_of(v, 0, v.len())
}

/// A copy of the characters `v[from..to]`.
pub fn slice_of(v: &Vec<char>, from: usize, to: usize) -> (r: Vec<char>)
    requires
        from <= to <= v.len(),
    ensures
        r@ == v@.subrange(from as int, to as int),
{
    let mut r: Vec<char> = Vec::new();
    let mut i: usize = from;
    while i < to
        invariant
            from <= i <= to <= v.len(),
            r@ == v@.subrange(from as int, i as int),
        decreases to - i,
    {
        r.push(v[i]);
        i += 1;
        assert(v@.subrange(from as int, i as int) == v@.subrange(from as int, i - 1).push(
            v@[i - 1],
        ));
    }
    r
}

/// Whether the two texts hold the same characters.
pub fn same_chars(a: &Vec<char>, b: &Vec<char>) -> (r: bool)
    ensures
        r == (a@ == b@),
{
    if a.len() != b.len() {
        return false;
    }
    let mut i: usize = 0;
    while i < a.len()
        invariant
            i <= a.len() == b.len(),
            a@.take(i as int) == b@.take(i as int),
        decreases a.len() - i,
    {
        if a[i] != b[i] {
            return false;
        }
        i += 1;
        assert(a@.take(i as int) == a@.take(i - 1).push(a@[i - 1]));
        assert(b@.take(i as int) == b@.take(i - 1).push(b@[i - 1]));
    }
    assert(a@.take(a@.len() as int) == a@);
    assert(b@.take(b@.len() as int) == b@);
    true
}

/// Whether `pat` is found in `s` at index `at`.
pub fn occurs_at(s: &Vec<char>, at: usize, pat: &Vec<char>) -> (r: bool)
    requires
        at <= s.len(),
    ensures
        r == pat@.is_prefix_of(s@.skip(at as int)),
{
    if pat.len() > s.len() - at {
        return false;
    }
    let ghost tail = s@.skip(at as int);
    let mut i: usize = 0;
    while i < pat.len()
        invariant
            at <= s.len(),
            i <= pat.len() <= s.len() - at,
            tail == s@.skip(at as int),
            pat@.take(i as int) == tail.take(i as int),
        decreases pat.len() - i,
    {
        if s[at + i] != pat[i] {
            assert(tail[i as int] != pat@[i as int]);
            return false;
        }
        i += 1;
        assert(pat@.take(i as int) == pat@.take(i - 1).push(pat@[i - 1]));
        assert(tail.take(i as int) == tail.take(i - 1).push(tail[i - 1]));
    }
    assert(pat@.take(pat@.len() as int) == pat@);
    assert(tail.take(pat@.len() as int) == tail.subrange(0, pat@.len() as int));
    true
}

/// Whether `s` begins with `pat`.
pub fn starts_with(s: &Vec<char>, pat: &Vec<char>) -> (r: bool)
    ensures
        r == pat@.is_prefix_of(s@),
{
    assert(s@.skip(0) == s@);
    occurs_at(s, 0, pat)
}

/// The first index at or after `from` that holds `c`, or the length of `s`.
pub fn find_char(s: &Vec<char>, c: char, from: usize) -> (r: usize)
    requires
        from <= s.len(),
    ensures
        r == index_of(s@, c, from as int),
        from <= r <= s.len(),
{
    let mut i: usize = from;
    while i < s.len() && s[i] != c
        invariant
            from <= i <= s.len(),
            index_of(s@, c, from as int) == index_of(s@, c, i as int),
        decreases s.len() - i,
    {
        i += 1;
    }
    i
}

/// The first index at or after `from` where `pat` begins, or the length of `s`.
pub fn find_seq(s: &Vec<char>, pat: &Vec<char>, from: usize) -> (r: usize)
    requires
        from <= s.len(),
    ensures
        r == index_of_seq(s@, pat@, from as int),
        from <= r <= s.len(),
{
    let mut i: usize = from;
    while i < s.len()
        invariant
            from <= i <= s.len(),
            index_of_seq(s@, pat@, from as int) == index_of_seq(s@, pat@, i as int),
        decreases s.len() - i,
    {
        if occurs_at(s, i, pat) {
            return i;
        }
        i += 1;
    }
    i
}

/// The bounds of `s[from..to]` without the characters of `class` that surround it.
pub fn trim_bounds(s: &Vec<char>, from: usize, to: usize, class: CharClass) -> (r: (usize, usize))
    requires
        from <= to <= s.len(),
    ensures
        from <= r.0 <= r.1 <= to,
        s@.subrange(r.0 as int, r.1 as int) == trim(s@.subrange(from as int, to as int), class),
{
    let ghost whole = s@.subrange(from as int, to as int);
    let mut a: usize = from;
    while a < to && class.has(s[a])
        invariant
            from <= a <= to <= s.len(),
            whole == s@.subrange(from as int, to as int),
            trim_start(whole, class) == trim_start(s@.subrange(a as int, to as int), class),
        decreases to - a,
    {
        assert(s@.subrange(a as int, to as int).drop_first() == s@.subrange(a + 1, to as int));
        a += 1;
    }
    let mut b: usize = to;
    while a < b && class.has(s[b - 1])
        invariant
            from <= a <= b <= to <= s.len(),
            trim(whole, class) == trim_end(s@.subrange(a as int, b as int), class),
        decreases b - a,
    {
        assert(s@.subrange(a as int, b as int).drop_last() == s@.subrange(a as int, b - 1));
        b -= 1;
    }
    (a, b)
}

/// The characters of `s[from..to]` without the characters of `class` that surround
/// them.
pub fn trimmed(s: &Vec<char>, from: usize, to: usize, class: CharClass) -> (r: Vec<char>)
    requires
        from <= to <= s.len(),
    ensures
        r@ == trim(s@.subrange(from as int, to as int), class),
{
    let (a, b) = trim_bounds(s, from, to, class);
    slice_of(s, a, b)
}

} // verus!
