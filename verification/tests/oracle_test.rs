use winnow::Parser;
use winnowcurl::float::{take_double, take_float, Halt};
use winnowcurl::scan::{
    take_chars, take_class1, take_i32, take_line, take_list, take_unsigned, until0, until1,
};
use winnowcurl::text::CharClass;

type NomError<'a> = nom::error::Error<&'a str>;
type WinnowError = winnow::error::ErrMode<winnow::error::ContextError>;

/// Every text of at most `length` characters over `alphabet`.
fn texts(alphabet: &[char], length: usize) -> Vec<String> {
    let mut all = vec![String::new()];
    let mut last = vec![String::new()];
    for _ in 0..length {
        let mut next = Vec::new();
        for text in last.iter() {
            for c in alphabet.iter() {
                let mut longer = text.clone();
                longer.push(*c);
                next.push(longer);
            }
        }
        all.extend(next.iter().cloned());
        last = next;
    }
    all
}

fn same_float(a: f64, b: f64) -> bool {
    (a.is_nan() && b.is_nan()) || a == b
}

#[test]
fn double_reads_what_nom_reads() {
    let alphabet = ['1', '0', '.', 'e', 'E', '+', '-', 'n', 'a', 'N', 'i', 'f', ' '];
    for text in texts(&alphabet, 5) {
        let theirs = nom::number::complete::double::<&str, NomError>(text.as_str());
        match take_double(text.as_str()) {
            Ok((rest, number)) => {
                let (their_rest, their_number) = theirs.unwrap();
                assert_eq!(rest, their_rest);
                assert!(same_float(number.parse::<f64>().unwrap(), their_number));
            }
            Err(Halt::NoMatch) => assert!(matches!(theirs, Err(nom::Err::Error(_)))),
            Err(Halt::Failure) => assert!(matches!(theirs, Err(nom::Err::Failure(_)))),
        }
    }
    for text in ["infinity", "INFINITY", "Infinit", "nan5", "1.5e10x", "12.34.56", "-0.0e-0"] {
        let theirs = nom::number::complete::double::<&str, NomError>(text);
        let (rest, number) = take_double(text).unwrap();
        let (their_rest, their_number) = theirs.unwrap();
        assert_eq!(rest, their_rest);
        assert!(same_float(number.parse::<f64>().unwrap(), their_number));
    }
}

#[test]
fn float_reads_what_winnow_reads() {
    let alphabet = ['1', '0', '.', 'e', 'E', '+', '-', 'n', 'a', 'N', 'i', 'f', ' '];
    let mut samples = texts(&alphabet, 5);
    for text in ["infinity", "INFINITY", "+Infinity!", "infinitx", "-iNfInItY", "nan5", "1.5e10x", "12.34.56"] {
        samples.push(text.to_string());
    }
    for text in samples {
        let theirs = winnow::ascii::float::<&str, f64, WinnowError>.parse_peek(text.as_str());
        match take_float(text.as_str()) {
            Ok((rest, number)) => {
                let (their_rest, their_number) = theirs.unwrap();
                assert_eq!(rest, their_rest);
                assert!(same_float(number.parse::<f64>().unwrap(), their_number));
            }
            Err(_) => assert!(matches!(theirs, Err(winnow::error::ErrMode::Backtrack(_)))),
        }
    }
}

#[test]
fn whole_numbers_are_read_as_nom_reads_them() {
    let alphabet = ['0', '1', '2', '5', '6', '9', '+', '-', 'x'];
    let mut samples = texts(&alphabet, 5);
    for text in ["255", "256", "65535", "65536", "2147483647", "2147483648", "-2147483648", "-2147483649", "+2147483647", "99999999999999999999", "0000000000000000000001"] {
        samples.push(text.to_string());
        samples.push(format!("{} x", text));
    }
    for text in samples {
        let text = text.as_str();
        assert_eq!(
            take_unsigned(text, 255).ok().map(|(rest, value)| (rest, value as u8)),
            nom::character::complete::u8::<&str, NomError>(text).ok()
        );
        assert_eq!(
            take_unsigned(text, 65535).ok().map(|(rest, value)| (rest, value as u16)),
            nom::character::complete::u16::<&str, NomError>(text).ok()
        );
        assert_eq!(take_i32(text).ok(), nom::character::complete::i32::<&str, NomError>(text).ok());
        assert_eq!(
            take_unsigned(text, 4294967295).ok().map(|(rest, value)| (rest, value as u32)),
            winnow::ascii::digit1::<&str, WinnowError>
                .try_map(|digits: &str| digits.parse::<u32>())
                .parse_peek(text)
                .ok()
        );
    }
}

#[test]
fn lines_end_where_nom_and_winnow_end_them() {
    let alphabet = ['a', '\r', '\n', ' '];
    for text in texts(&alphabet, 6) {
        let text = text.as_str();
        let ours = take_line(text).ok();
        assert_eq!(ours, nom::character::complete::not_line_ending::<&str, NomError>(text).ok());
        assert_eq!(ours, winnow::ascii::till_line_ending::<&str, WinnowError>.parse_peek(text).ok());
    }
}

#[test]
fn marks_are_found_where_nom_and_winnow_find_them() {
    let alphabet = ['a', ' ', ':', '$'];
    for text in texts(&alphabet, 6) {
        let chars: Vec<char> = text.chars().collect();
        let text = text.as_str();
        for mark in [" : ", "$", ":"] {
            let ours = until0(&chars, 0, mark).map(|at| (&text[at..], &text[..at]));
            let theirs = nom::bytes::complete::take_until::<&str, &str, NomError>(mark)(text).ok();
            assert_eq!(ours, theirs);
            let ours = until1(&chars, 0, mark).map(|at| (&text[at..], &text[..at]));
            let theirs = winnow::token::take_until::<&str, &str, WinnowError>(1.., mark).parse_peek(text).ok();
            assert_eq!(ours, theirs);
        }
    }
}

#[test]
fn lists_are_read_as_winnow_reads_them() {
    let alphabet = ['1', '2', '.', ':', '-', ' ', 'x'];
    for text in texts(&alphabet, 6) {
        let text = text.as_str();
        let ours = take_list(text, CharClass::Digit, ".").ok();
        let theirs = winnow::combinator::separated::<&str, &str, (), char, WinnowError, _, _>(
            1..,
            winnow::ascii::digit1,
            '.',
        )
        .take()
        .parse_peek(text)
        .ok();
        assert_eq!(ours, theirs);
        let ours = take_list(text, CharClass::Digit, "-:. ").ok();
        let theirs = winnow::combinator::separated::<&str, &str, (), char, WinnowError, _, _>(
            1..,
            winnow::ascii::digit1,
            winnow::token::one_of(['-', ':', '.', ' ']),
        )
        .take()
        .parse_peek(text)
        .ok();
        assert_eq!(ours, theirs);
    }
}

#[test]
fn runs_are_read_as_nom_and_winnow_read_them() {
    let alphabet = ['a', 'Z', '5', ' ', '\t', '\n', '\u{e9}', '_'];
    for text in texts(&alphabet, 4) {
        let text = text.as_str();
        assert_eq!(
            take_class1(text, CharClass::Alpha).ok(),
            nom::character::complete::alpha1::<&str, NomError>(text).ok()
        );
        assert_eq!(
            take_class1(text, CharClass::Digit).ok(),
            nom::character::complete::digit1::<&str, NomError>(text).ok()
        );
        assert_eq!(
            take_class1(text, CharClass::Alphanumeric).ok(),
            nom::character::complete::alphanumeric1::<&str, NomError>(text).ok()
        );
        assert_eq!(
            take_class1(text, CharClass::Blank).ok(),
            nom::character::complete::space1::<&str, NomError>(text).ok()
        );
        assert_eq!(
            take_class1(text, CharClass::Alpha).ok(),
            winnow::ascii::alpha1::<&str, WinnowError>.parse_peek(text).ok()
        );
        assert_eq!(
            take_class1(text, CharClass::Alphanumeric).ok(),
            winnow::ascii::alphanumeric1::<&str, WinnowError>.parse_peek(text).ok()
        );
        assert_eq!(
            take_class1(text, CharClass::Blank).ok(),
            winnow::ascii::space1::<&str, WinnowError>.parse_peek(text).ok()
        );
        assert_eq!(
            take_class1(text, CharClass::Multispace).ok(),
            winnow::ascii::multispace1::<&str, WinnowError>.parse_peek(text).ok()
        );
        for count in 0..6usize {
            assert_eq!(
                take_chars(text, count).ok(),
                nom::bytes::complete::take::<usize, &str, NomError>(count)(text).ok()
            );
        }
    }
}
