use winnowcurl::inclusion::{hex_to_binary, Inclusion};

#[test]
fn inclusion_test_inclusion() {
    let inclusion = Inclusion { hex: "0xFFFFFFFFFFFE".into() };
    assert_eq!(inclusion.hex_to_binary(), "111111111111111111111111111111111111111111111110");

    let inclusion = Inclusion { hex: "0xffff8".into() };
    assert_eq!(inclusion.hex_to_binary(), "11111111111111111000");

    let inclusion = Inclusion { hex: "0x1FD3C00800000000".into() };
    assert_eq!(inclusion.hex_to_binary(), "1111111010011110000000000100000000000000000000000000000000000");
}

#[test]
fn iot_test_inclusion() {
    let input = "0xFF8";
    assert_eq!(hex_to_binary(input), "111111111000");

    let input = "0xFFFFFFFFE";
    assert_eq!(hex_to_binary(input), "111111111111111111111111111111111110");

    let input = "0xFFFFFFFFFFFE";
    assert_eq!(hex_to_binary(input), "111111111111111111111111111111111111111111111110");

    let input = "0xffff8";
    assert_eq!(hex_to_binary(input), "11111111111111111000");

    let input = "0x1FD3C00800000000";
    assert_eq!(hex_to_binary(input), "1111111010011110000000000100000000000000000000000000000000000");

    let input = "0x0000000050000000000000000000000000000000000000000000000000000000000000000000000000000000000000000000000000000000000000000000000000000000000000000000000000000000000000000000000000000000000000000000000000000000000000000000000000000000000000000000000000000000000000000000000000000000";
    assert_eq!(hex_to_binary(input), "1010000000000000000000000000000000000000000000000000000000000000000000000000000000000000000000000000000000000000000000000000000000000000000000000000000000000000000000000000000000000000000000000000000000000000000000000000000000000000000000000000000000000000000000000000000000000000000000000000000000000000000000000000000000000000000000000000000000000000000000000000000000000000000000000000000000000000000000000000000000000000000000000000000000000000000000000000000000000000000000000000000000000000000000000000000000000000000000000000000000000000000000000000000000000000000000000000000000000000000000000000000000000000000000000000000000000000000000000000000000000000000000000000000000000000000000000000000000000000000000000000000000000000000000000000000000000000000000000000000000000000000000000000000000000000000000000000000000000000000000000000000000000000000000000000000000000000000000000000000000000000000000000000000000000000000000000000000000000000000000000000000000000000000000000000000000000000000000000000000000000000000000000000000000000000000000000000000000000000000000000000000");

    let input = "0xFFFFFFFFFFFFFFFFFFFFFFFFFFFFFFFFFFFFFFFFFFFFFFFFFFFFFFFFFFFFFFFFFFFFFFFFFFFFFFFFFFFFFFFFFFFFFFFFFFFFFFFFFFFFFFFFFFFFFFFFFFFFFFFFFFFFFFFFFFFFFFFFFFFFFFFFFFFFFFFFFFFFFFFFFFFFFFFFFFFFFFFFFFFFFFFFFFFFFFFFFFFFFFFFFFFFFFFFFFFFFFFFFFFFFFFFFFFFFFFFFFFFFFFFFFFFFFFFFFFFFFFFFFFFFFFFFFFFFFFE";
    assert_eq!(hex_to_binary(input), "1111111111111111111111111111111111111111111111111111111111111111111111111111111111111111111111111111111111111111111111111111111111111111111111111111111111111111111111111111111111111111111111111111111111111111111111111111111111111111111111111111111111111111111111111111111111111111111111111111111111111111111111111111111111111111111111111111111111111111111111111111111111111111111111111111111111111111111111111111111111111111111111111111111111111111111111111111111111111111111111111111111111111111111111111111111111111111111111111111111111111111111111111111111111111111111111111111111111111111111111111111111111111111111111111111111111111111111111111111111111111111111111111111111111111111111111111111111111111111111111111111111111111111111111111111111111111111111111111111111111111111111111111111111111111111111111111111111111111111111111111111111111111111111111111111111111111111111111111111111111111111111111111111111111111111111111111111111111111111111111111111111111111111111111111111111111111111111111111111111111111111111111111111111111111111111111111111111111111111111111111111111111111111111111111111111111111110");
}

#[test]
fn binary_reads_digit_by_digit() {
    let inclusion = Inclusion { hex: "0xFF8".into() };
    assert_eq!(inclusion.binary(), "111111111000");
    let inclusion = Inclusion { hex: "0x0a_Zf".into() };
    assert_eq!(inclusion.binary(), "000010101111");
    let inclusion = Inclusion { hex: "0x".into() };
    assert_eq!(inclusion.binary(), "");
    let inclusion = Inclusion { hex: "\u{e9}1".into() };
    assert_eq!(inclusion.binary(), "0001");
}

#[test]
fn to_binary_knows_both_cases() {
    assert_eq!(Inclusion::to_binary('0'), "0000");
    assert_eq!(Inclusion::to_binary('9'), "1001");
    assert_eq!(Inclusion::to_binary('a'), "1010");
    assert_eq!(Inclusion::to_binary('F'), "1111");
    assert_eq!(Inclusion::to_binary('g'), "");
}

#[test]
fn word_that_is_no_number_has_no_binary_form() {
    let inclusion = Inclusion { hex: "0x0x+10".into() };
    assert_eq!(inclusion.hex_to_binary(), "10000");
    let inclusion = Inclusion { hex: "0x".into() };
    assert_eq!(inclusion.hex_to_binary(), "");
    let inclusion = Inclusion { hex: "0xFFFFFFFFFFFFFFFFF".into() };
    assert_eq!(inclusion.hex_to_binary(), "");
    let inclusion = Inclusion { hex: "0x0".into() };
    assert_eq!(inclusion.hex_to_binary(), "0");
    let inclusion = Inclusion { hex: "x0".into() };
    assert_eq!(inclusion.hex_to_binary(), "");
}

#[test]
fn big_numbers_take_a_sign_and_underscores() {
    assert_eq!(hex_to_binary("0x0"), "0");
    assert_eq!(hex_to_binary("0x0x1_0"), "10000");
    assert_eq!(hex_to_binary("-0xf"), "");
    assert_eq!(hex_to_binary("0x-f"), "-1111");
    assert_eq!(hex_to_binary("0x-0"), "0");
    assert_eq!(hex_to_binary("0x+a"), "1010");
    assert_eq!(hex_to_binary("0x-+a"), "");
    assert_eq!(hex_to_binary("0x++a"), "");
    assert_eq!(hex_to_binary("0x_a"), "");
    assert_eq!(hex_to_binary("0x"), "");
    assert_eq!(hex_to_binary("0xg"), "");
}

/// Every text of at most `length` parts out of `alphabet`.
fn texts(alphabet: &[&str], length: usize) -> Vec<String> {
    let mut all = vec![String::new()];
    let mut last = vec![String::new()];
    for _ in 0..length {
        let mut next = Vec::new();
        for text in last.iter() {
            for part in alphabet.iter() {
                next.push(format!("{}{}", text, part));
            }
        }
        all.extend(next.iter().cloned());
        last = next;
    }
    all
}

/// The value of a hexadecimal digit.
fn digit(c: char) -> Option<u128> {
    match c {
        '0'..='9' => Some(c as u128 - '0' as u128),
        'a'..='f' => Some(c as u128 - 'a' as u128 + 10),
        'A'..='F' => Some(c as u128 - 'A' as u128 + 10),
        _ => None,
    }
}

/// The binary digits of `value`, the most significant first.
fn bits(value: u128) -> String {
    if value < 2 {
        value.to_string()
    } else {
        format!("{}{}", bits(value / 2), value % 2)
    }
}

/// What stands after every leading `0x`.
fn digits_of(hex: &str) -> &str {
    let mut rest = hex;
    while rest.starts_with("0x") {
        rest = &rest[2..];
    }
    rest
}

/// The binary form of a hexadecimal number with an optional `+` before it, if it is at
/// most `max`.
fn word(hex: &str, max: u128) -> String {
    let text = digits_of(hex);
    let digits = text.strip_prefix('+').unwrap_or(text);
    if digits.is_empty() || digits.chars().any(|c| digit(c).is_none()) {
        return String::new();
    }
    let mut value: u128 = 0;
    for c in digits.chars() {
        value = value * 16 + digit(c).unwrap();
        if value > max {
            return String::new();
        }
    }
    bits(value)
}

/// The binary form of a hexadecimal integer of any size, written with an optional sign
/// and with underscores among its digits.
fn big(hex: &str) -> String {
    let text = digits_of(hex);
    let minus = text.starts_with('-');
    let unsigned = match text.strip_prefix('-') {
        Some(tail) if !tail.starts_with('+') => tail,
        _ => text,
    };
    let magnitude = match unsigned.strip_prefix('+') {
        Some(tail) if !tail.starts_with('+') => tail,
        _ => unsigned,
    };
    if magnitude.is_empty() || magnitude.starts_with('_') {
        return String::new();
    }
    if magnitude.chars().any(|c| c != '_' && digit(c).is_none()) {
        return String::new();
    }
    let mut value: u128 = 0;
    for c in magnitude.chars().filter(|c| *c != '_') {
        value = value * 16 + digit(c).unwrap();
    }
    if minus && value != 0 {
        format!("-{}", bits(value))
    } else {
        bits(value)
    }
}

#[test]
fn binary_forms_are_what_their_definitions_say() {
    let alphabet = ["0x", "0", "1", "f", "A", "g", "+", "-", "_", "x", "\u{e9}", " "];
    for hex in texts(&alphabet, 5) {
        assert_eq!(hex_to_binary(&hex), big(&hex), "on {:?}", hex);
        let inclusion = Inclusion { hex: hex.clone() };
        assert_eq!(inclusion.hex_to_binary(), word(&hex, usize::MAX as u128), "on {:?}", hex);
        if hex.is_char_boundary(2) {
            let digit_by_digit: String = hex[2..].chars().map(Inclusion::to_binary).collect();
            assert_eq!(inclusion.binary(), digit_by_digit);
        }
    }
    for hex in ["0xffffffffffffffff", "0x10000000000000000", "0x+ffffffffffffffff", "0xFFFFFFFFFFFFFFFFF"] {
        let inclusion = Inclusion { hex: hex.to_string() };
        assert_eq!(inclusion.hex_to_binary(), word(hex, usize::MAX as u128));
        assert_eq!(hex_to_binary(hex), big(hex));
    }
}
