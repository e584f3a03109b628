//! Masks written in hexadecimal, and their binary form.

use vstd::prelude::*;
use vstd::string::StringExecFns;
use crate::number::{
    big_hex_in_binary,
    big_hex_to_binary,
    binary_digits,
    binary_text,
    is_big_hex,
    strip_prefixes,
    unsigned_in_radix,
    without_prefixes,
};
use crate::text::chars_of;

verus! {

/// A mask written in hexadecimal, such as `0xFF8`.
#[derive(Debug, Clone, PartialEq, Eq)]
pub struct Inclusion {
    pub hex: String,
}

/// The four binary digits of the hexadecimal digit `c`; nothing for any other
/// character.
pub open spec fn nibble(c: char) -> Seq<char> {
    if c == '0' {
        "0000"@
    } else if c == '1' {
        "0001"@
    } else if c == '2' {
        "0010"@
    } else if c == '3' {
        "0011"@
    } else if c == '4' {
        "0100"@
    } else if c == '5' {
        "0101"@
    } else if c == '6' {
        "0110"@
    } else if c == '7' {
        "0111"@
    } else if c == '8' {
        "1000"@
    } else if c == '9' {
        "1001"@
    } else if c == 'A' || c == 'a' {
        "1010"@
    } else if c == 'B' || c == 'b' {
        "1011"@
    } else if c == 'C' || c == 'c' {
        "1100"@
    } else if c == 'D' || c == 'd' {
        "1101"@
    } else if c == 'E' || c == 'e' {
        "1110"@
    } else if c == 'F' || c == 'f' {
        "1111"@
    } else {
        ""@
    }
}

/// The binary digits of the characters of `s`, digit by digit.
pub open spec fn nibbles(s: Seq<char>) -> Seq<char>
    decreases s.len(),
{
    if s.len() == 0 {
        Seq::empty()
    } else {
        nibbles(s.drop_last()) + nibble(s.last())
    }
}

/// The number of characters that make up the first two bytes of `s` in UTF-8: two
/// characters of one byte each, or one character of two bytes. `None` when `s` is
/// shorter than two bytes or when its second byte does not end a character.
pub open spec fn two_byte_head(s: Seq<char>) -> Option<int> {
    if s.len() >= 2 && s[0] <= '\u{7f}' && s[1] <= '\u{7f}' {
        Some(2)
    } else if s.len() >= 1 && '\u{80}' <= s[0] && s[0] <= '\u{7ff}' {
        Some(1)
    } else {
        None
    }
}

/// The binary form of the number that `hex` writes after its `0x` prefixes, where it
/// writes one that fits a machine word; nothing else.
pub open spec fn word_in_binary(hex: Seq<char>) -> Seq<char> {
    match unsigned_in_radix(without_prefixes(hex, "0x"@), 16) {
        Some(v) => if v <= usize::MAX {
            binary_digits(v)
        } else {
            Seq::empty()
        },
        None => Seq::empty(),
    }
}

impl Inclusion {
    /// The four binary digits of a hexadecimal digit; the empty text for any other
    /// character.
    pub fn to_binary(c: char) -> (bits: &'static str)
        ensures
            bits@ == nibble(c),
    {
        match c {
            '0' => "0000",
            '1' => "0001",
            '2' => "0010",
            '3' => "0011",
            '4' => "0100",
            '5' => "0101",
            '6' => "0110",
            '7' => "0111",
            '8' => "1000",
            '9' => "1001",
            'A' | 'a' => "1010",
            'B' | 'b' => "1011",
            'C' | 'c' => "1100",
            'D' | 'd' => "1101",
            'E' | 'e' => "1110",
            'F' | 'f' => "1111",
            _ => "",
        }
    }

    /// The binary form of the mask, digit by digit: what follows the first two bytes of
    /// the text, each hexadecimal digit as four binary digits, any other character left
    /// out.
    pub fn binary(&self) -> (bits: String)
        requires
            two_byte_head(self.hex@) is Some,
        ensures
            bits@ == nibbles(self.hex@.skip(two_byte_head(self.hex@).unwrap())),
    {
        let s = chars_of(self.hex.as_str());
        let from: usize = if s[0] <= '\u{7f}' {
            2
        } else {
            1
        };
        let ghost digits = s@.skip(from as int);
        let mut bits = String::new();
        let mut i: usize = from;
        while i < s.len()
            invariant
                from <= i <= s.len(),
                digits == s@.skip(from as int),
                bits@ == nibbles(digits.take(i - from)),
            decreases s.len() - i,
        {
            assert(digits.take(i - from + 1).drop_last() == digits.take(i - from));
            assert(digits.take(i - from + 1).last() == s@[i as int]);
            bits.append(Inclusion::to_binary(s[i]));
            i += 1;
        }
        assert(digits.take(digits.len() as int) == digits);
        bits
    }

    /// The binary form of the mask as a number: the text is read, after its `0x`
    /// prefixes, as a hexadecimal number that fits a machine word. The empty text when
    /// it is not such a number.
    pub fn hex_to_binary(&self) -> (bits: String)
        ensures
            bits@ == word_in_binary(self.hex@),
    {
        let digits = strip_prefixes(self.hex.as_str(), "0x");
        match usize::from_str_radix(digits, 16) {
            Ok(value) => binary_text(value),
            Err(_) => String::new(),
        }
    }
}

/// The binary form of the number that `hex` writes, of any size: the text is read,
/// after its `0x` prefixes, as a hexadecimal integer. The empty text when it is not
/// one.
pub fn hex_to_binary(hex: &str) -> (bits: String)
    ensures
        bits@ == if is_big_hex(without_prefixes(hex@, "0x"@)) {
            big_hex_in_binary(without_prefixes(hex@, "0x"@))
        } else {
            Seq::empty()
        },
{
    let digits = strip_prefixes(hex, "0x");
    match big_hex_to_binary(digits) {
        Some(bits) => bits,
        None => String::new(),
    }
}

} // verus!
