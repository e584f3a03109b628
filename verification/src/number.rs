//! Numbers written in a radix, as the standard library reads them.

use vstd::prelude::*;
use core::num::ParseIntError;

verus! {

/// `core::num::ParseIntError`, the error of the standard library's integer parsers.
/// Nothing is said of what it holds.
#[verifier::external_type_specification]
#[verifier::external_body]
pub struct ExParseIntError(ParseIntError);

/// The value of `c` as a digit: `0` to `9` count 0 to 9, and the letters `a` to `z`, in
/// either case, count 10 to 35. `None` for any other character.
pub open spec fn digit_of(c: char) -> Option<nat> {
    if '0' <= c <= '9' {
        Some((c as nat - '0' as nat) as nat)
    } else if 'a' <= c <= 'z' {
        Some((c as nat - 'a' as nat + 10) as nat)
    } else if 'A' <= c <= 'Z' {
        Some((c as nat - 'A' as nat + 10) as nat)
    } else {
        None
    }
}

/// Whether `c` is a digit of the radix `radix`.
pub open spec fn is_digit_of(c: char, radix: nat) -> bool {
    digit_of(c) matches Some(d) && d < radix
}

/// Whether every character of `digits` is a digit of the radix `radix`.
pub open spec fn all_digits(digits: Seq<char>, radix: nat) -> bool {
    forall|k: int| 0 <= k < digits.len() ==> is_digit_of(#[trigger] digits[k], radix)
}

/// The number that `digits` write in the radix `radix`.
pub open spec fn radix_value(digits: Seq<char>, radix: nat) -> nat
    decreases digits.len(),
{
    if digits.len() == 0 {
        0
    } else {
        radix * radix_value(digits.drop_last(), radix) + match digit_of(digits.last()) {
            Some(d) => d,
            None => 0,
        }
    }
}

/// `s` without the `+` that may lead it.
pub open spec fn unsigned_digits(s: Seq<char>) -> Seq<char> {
    if s.len() > 0 && s[0] == '+' {
        s.skip(1)
    } else {
        s
    }
}

/// The number that `s` writes in the radix `radix`, as an unsigned integer: `s` is an
/// optional `+` followed by one digit or more, and nothing else. `None` when `s` is not
/// of that form.
pub open spec fn unsigned_in_radix(s: Seq<char>, radix: nat) -> Option<nat> {
    let digits = unsigned_digits(s);
    if digits.len() > 0 && all_digits(digits, radix) {
        Some(radix_value(digits, radix))
    } else {
        None
    }
}

/// `u8::from_str_radix` reads an optional `+` and then digits of the radix, and fails
/// on any other text, on a text without a digit, and on a number greater than 255.
pub assume_specification[ u8::from_str_radix ](src: &str, radix: u32) -> (r: Result<
    u8,
    ParseIntError,
>)
    requires
        2 <= radix <= 36,
    ensures
        match unsigned_in_radix(src@, radix as nat) {
            Some(v) => if v <= u8::MAX {
                r matches Ok(x) && x == v
            } else {
                r is Err
            },
            None => r is Err,
        },
;

/// `usize::from_str_radix` reads an optional `+` and then digits of the radix, and
/// fails on any other text, on a text without a digit, and on a number greater than
/// `usize::MAX`.
pub assume_specification[ usize::from_str_radix ](src: &str, radix: u32) -> (r: Result<
    usize,
    ParseIntError,
>)
    requires
        2 <= radix <= 36,
    ensures
        match unsigned_in_radix(src@, radix as nat) {
            Some(v) => if v <= usize::MAX {
                r matches Ok(x) && x == v
            } else {
                r is Err
            },
            None => r is Err,
        },
;

/// The binary digits of `n`, the most significant first; `0` alone for zero.
pub open spec fn binary_digits(n: nat) -> Seq<char>
    decreases n,
{
    if n < 2 {
        seq![bit_char(n)]
    } else {
        binary_digits(n / 2).push(bit_char(n % 2))
    }
}

/// The binary digit for `bit`: `0` for zero and `1` for any other number.
pub open spec fn bit_char(bit: nat) -> char {
    if bit == 0 {
        '0'
    } else {
        '1'
    }
}

/// The binary digits of `value`, the most significant first; `0` alone for zero.
pub fn binary_text(value: usize) -> (s: String)
    ensures
        s@ == binary_digits(value as nat),
{
    let mut low: Vec<char> = Vec::new();
    let mut m: usize = value;
    assert(binary_digits(m as nat) + low@.reverse() == binary_digits(m as nat));
    while m >= 2
        invariant
            binary_digits(value as nat) == binary_digits(m as nat) + low@.reverse(),
        decreases m,
    {
        let c = if m % 2 == 0 {
            '0'
        } else {
            '1'
        };
        let ghost before = low@;
        low.push(c);
        assert(low@.reverse() == seq![c] + before.reverse());
        assert(binary_digits((m / 2) as nat).push(c) + before.reverse() == binary_digits(
            (m / 2) as nat,
        ) + low@.reverse());
        m = m / 2;
    }
    let mut s = String::new();
    s.push(if m == 0 {
        '0'
    } else {
        '1'
    });
    let mut k: usize = low.len();
    while k > 0
        invariant
            k <= low.len(),
            s@ == binary_digits(m as nat) + low@.reverse().take(low.len() - k),
            m < 2,
        decreases k,
    {
        k -= 1;
        s.push(low[k]);
        assert(low@.reverse().take(low.len() - k) == low@.reverse().take(low.len() - k - 1).push(
            low@[k as int],
        ));
    }
    assert(low@.reverse().take(low.len() as int) == low@.reverse());
    s
}

/// `s` without the repetitions of `prefix` that lead it.
pub open spec fn without_prefixes(s: Seq<char>, prefix: Seq<char>) -> Seq<char>
    decreases s.len(),
{
    if prefix.len() > 0 && prefix.is_prefix_of(s) {
        without_prefixes(s.skip(prefix.len() as int), prefix)
    } else {
        s
    }
}

/// Takes off `input` every repetition of `prefix` that leads it.
pub fn strip_prefixes<'a>(input: &'a str, prefix: &str) -> (rest: &'a str)
    ensures
        rest@ == without_prefixes(input@, prefix@),
{
    let s = crate::text::chars_of(input);
    let p = crate::text::chars_of(prefix);
    let mut at: usize = 0;
    if p.len() == 0 {
        assert(s@.skip(0) == s@);
        return input;
    }
    assert(s@.skip(0) == s@);
    while crate::text::occurs_at(&s, at, &p)
        invariant
            at <= s.len(),
            p.len() > 0,
            p@ == prefix@,
            without_prefixes(s@, p@) == without_prefixes(s@.skip(at as int), p@),
        decreases s.len() - at,
    {
        assert(s@.skip(at as int).skip(p@.len() as int) == s@.skip(at + p@.len()));
        at += p.len();
    }
    crate::scan::rest_from(input, at)
}

/// The text that `s` writes as a hexadecimal integer of any size, after its sign is
/// taken off: a leading `-` goes unless a `+` follows it, and then a leading `+` goes
/// unless a `+` follows it.
pub open spec fn big_magnitude_text(s: Seq<char>) -> Seq<char> {
    let s1 = if s.len() > 0 && s[0] == '-' && !(s.len() > 1 && s[1] == '+') {
        s.skip(1)
    } else {
        s
    };
    if s1.len() > 0 && s1[0] == '+' && !(s1.len() > 1 && s1[1] == '+') {
        s1.skip(1)
    } else {
        s1
    }
}

/// Whether `s` writes a hexadecimal integer of any size: after the sign stands one
/// character at least, the first is no underscore, and each is a hexadecimal digit or an
/// underscore.
pub open spec fn is_big_hex(s: Seq<char>) -> bool {
    let text = big_magnitude_text(s);
    &&& text.len() > 0
    &&& text[0] != '_'
    &&& forall|k: int| 0 <= k < text.len() ==> text[k] == '_' || is_digit_of(#[trigger] text[k], 16)
}

/// The binary text of the hexadecimal integer that `s` writes: the binary digits of the
/// number that its digits write, underscores left out, after a `-` where `s` begins
/// with one and the number is not zero.
pub open spec fn big_hex_in_binary(s: Seq<char>) -> Seq<char> {
    let value = radix_value(big_magnitude_text(s).filter(|c: char| c != '_'), 16);
    if s.len() > 0 && s[0] == '-' && value != 0 {
        seq!['-'] + binary_digits(value)
    } else {
        binary_digits(value)
    }
}

/// `num::BigInt::from_str_radix` with the radix 16, and the binary form of what it
/// reads, as `{:b}` formats it.
///
/// The text is read as [`is_big_hex`] says, with no limit on the size of the number;
/// the binary form has no leading zero and no prefix.
#[verifier::external_body]
pub(crate) fn big_hex_to_binary(digits: &str) -> (r: Option<String>)
    ensures
        match r {
            Some(binary) => is_big_hex(digits@) && binary@ == big_hex_in_binary(digits@),
            None => !is_big_hex(digits@),
        },
{
    match <num::BigInt as num::Num>::from_str_radix(digits, 16) {
        Ok(value) => Some(format!("{:0b}", value)),
        Err(_) => None,
    }
}

} // verus!
