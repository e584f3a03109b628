use winnowcurl::color::{from_hex, hex_color, hex_primary, is_hex_digit, Color};
use winnowcurl::scan::NoMatch;

#[test]
fn parse_color() {
    assert_eq!(
        hex_color("#2F14DF"),
        Ok((
            "",
            Color {
                red: 47,
                green: 20,
                blue: 223,
            }
        ))
    );
}

#[test]
fn hex_color_keeps_what_follows() {
    assert_eq!(
        hex_color("#00ff7fabc"),
        Ok((
            "abc",
            Color {
                red: 0,
                green: 255,
                blue: 127,
            }
        ))
    );
}

#[test]
fn hex_color_rejects_other_text() {
    assert_eq!(hex_color("2F14DF"), Err(NoMatch));
    assert_eq!(hex_color("#2F14D"), Err(NoMatch));
    assert_eq!(hex_color("#2F14DG"), Err(NoMatch));
    assert_eq!(hex_color(""), Err(NoMatch));
}

#[test]
fn hex_primary_reads_two_digits() {
    assert_eq!(hex_primary("2F14DF"), Ok(("14DF", 47)));
    assert_eq!(hex_primary("ff"), Ok(("", 255)));
    assert_eq!(hex_primary("f"), Err(NoMatch));
    assert_eq!(hex_primary("+f"), Err(NoMatch));
    assert_eq!(hex_primary("g0"), Err(NoMatch));
}

#[test]
fn from_hex_reads_numbers_below_256() {
    assert_eq!(from_hex("2F"), Ok(47));
    assert_eq!(from_hex("df"), Ok(223));
    assert_eq!(from_hex("+7"), Ok(7));
    assert_eq!(from_hex("000ff"), Ok(255));
    assert!(from_hex("100").is_err());
    assert!(from_hex("").is_err());
    assert!(from_hex("+").is_err());
    assert!(from_hex("-1").is_err());
    assert!(from_hex("1g").is_err());
}

#[test]
fn hex_digits_are_recognized() {
    for c in "0123456789abcdefABCDEF".chars() {
        assert!(is_hex_digit(c));
    }
    for c in "gG/:@`z -+".chars() {
        assert!(!is_hex_digit(c));
    }
}

#[test]
fn from_hex_reads_an_optional_plus_and_digits() {
    let alphabet = ['0', '1', '9', 'a', 'F', 'g', '+', '-', ' ', '_', '\u{e9}'];
    let mut texts = vec![String::new()];
    let mut last = vec![String::new()];
    for _ in 0..4 {
        let mut next = Vec::new();
        for text in last.iter() {
            for c in alphabet.iter() {
                next.push(format!("{}{}", text, c));
            }
        }
        texts.extend(next.iter().cloned());
        last = next;
    }
    for text in texts {
        let digits = text.strip_prefix('+').unwrap_or(&text);
        let mut expected = if digits.is_empty() { None } else { Some(0u32) };
        for c in digits.chars() {
            expected = match (expected, c.to_digit(16)) {
                (Some(value), Some(d)) if c.is_ascii() => Some(value * 16 + d),
                _ => None,
            };
        }
        let expected = expected.filter(|value| *value <= 255).map(|value| value as u8);
        assert_eq!(from_hex(&text).ok(), expected, "on {:?}", text);
    }
}
