//! Lines of a device log: the time at the server, the topic, and the data as JSON text.
//!
//! A line reads `2024-05-05 00:00:03.294  [byts/DATA/CN18b08cf88f1]  D:{...}`. This module
//! finds the parts of such a line; what the JSON text holds is for its reader to decode.

use vstd::prelude::*;
use crate::scan::{
    after_pieces,
    after_tag,
    part_of,
    rest_from,
    skip_class,
    skip_pieces,
    skip_run,
    take_class1,
    take_line,
    take_run1,
    take_tag,
    till_line_ending,
    NoMatch,
    Piece,
};
use crate::text::{chars_of, lemma_run, run, run_end, CharClass};

verus! {

/// The pieces of a time at the server: `year-month-day hour:minute:second.fraction`,
/// each number a run of digits, with blanks between date and time.
pub open spec fn time_pieces() -> Seq<Piece> {
    seq![
        Piece::Run(CharClass::Digit),
        Piece::Mark('-'),
        Piece::Run(CharClass::Digit),
        Piece::Mark('-'),
        Piece::Run(CharClass::Digit),
        Piece::Run(CharClass::Blank),
        Piece::Run(CharClass::Digit),
        Piece::Mark(':'),
        Piece::Run(CharClass::Digit),
        Piece::Mark(':'),
        Piece::Run(CharClass::Digit),
        Piece::Mark('.'),
        Piece::Run(CharClass::Digit),
    ]
}

/// The time at the server that `s` begins with: what follows it, and its year.
pub open spec fn server_time_spec(s: Seq<char>) -> Option<(Seq<char>, Seq<char>)> {
    match after_pieces(s, time_pieces()) {
        Some(rest) => Some((rest, s.take(run(s, CharClass::Digit) as int))),
        None => None,
    }
}

/// The further levels of a topic that `s` begins with, each a `/` and a name of letters
/// and digits, as many as can be read, and what follows them.
pub open spec fn topic_levels(s: Seq<char>) -> (Seq<char>, Seq<Seq<char>>)
    decreases s.len(),
{
    match after_tag(s, seq!['/']) {
        None => (s, Seq::empty()),
        Some(s1) => match take_run1(s1, CharClass::Alphanumeric) {
            Some((rest, level)) if rest.len() < s.len() => {
                let (end, more) = topic_levels(rest);
                (end, seq![level] + more)
            },
            _ => (s, Seq::empty()),
        },
    }
}

/// The topic that `s` begins with: between `[` and `]`, names of letters and digits
/// with a `/` between them, one name at least.
pub open spec fn topic_name_spec(s: Seq<char>) -> Option<(Seq<char>, Seq<Seq<char>>)> {
    match after_tag(s, seq!['[']) {
        None => None,
        Some(s1) => match take_run1(s1, CharClass::Alphanumeric) {
            None => None,
            Some((s2, first)) => {
                let (s3, more) = topic_levels(s2);
                match after_tag(s3, seq![']']) {
                    None => None,
                    Some(rest) => Some((rest, seq![first] + more)),
                }
            },
        },
    }
}

/// The data that `s` begins with: after `D:`, what stands before the end of the line.
pub open spec fn json_spec(s: Seq<char>) -> Option<(Seq<char>, Seq<char>)> {
    match after_tag(s, seq!['D', ':']) {
        None => None,
        Some(s1) => till_line_ending(s1),
    }
}

/// The log line that `s` begins with: a time, blanks, a topic, blanks and data, and the
/// line feeds after them. What follows the line feeds is handed on with the data.
pub open spec fn log_spec(s: Seq<char>) -> Option<(Seq<char>, Seq<char>)> {
    match server_time_spec(s) {
        None => None,
        Some((s1, _)) => match take_run1(s1, CharClass::Blank) {
            None => None,
            Some((s2, _)) => match topic_name_spec(s2) {
                None => None,
                Some((s3, _)) => match take_run1(s3, CharClass::Blank) {
                    None => None,
                    Some((s4, _)) => match json_spec(s4) {
                        None => None,
                        Some((s5, json)) => Some((skip_run(s5, CharClass::LineFeed), json)),
                    },
                },
            },
        },
    }
}

/// The views of the texts of `texts`, in order.
pub open spec fn text_views<'a>(texts: Seq<&'a str>) -> Seq<Seq<char>> {
    texts.map_values(|t: &'a str| t@)
}

/// The pieces of a time at the server.
fn server_time_pieces() -> (pieces: Vec<Piece>)
    ensures
        pieces@ == time_pieces(),
{
    let mut pieces: Vec<Piece> = Vec::new();
    pieces.push(Piece::Run(CharClass::Digit));
    pieces.push(Piece::Mark('-'));
    pieces.push(Piece::Run(CharClass::Digit));
    pieces.push(Piece::Mark('-'));
    pieces.push(Piece::Run(CharClass::Digit));
    pieces.push(Piece::Run(CharClass::Blank));
    pieces.push(Piece::Run(CharClass::Digit));
    pieces.push(Piece::Mark(':'));
    pieces.push(Piece::Run(CharClass::Digit));
    pieces.push(Piece::Mark(':'));
    pieces.push(Piece::Run(CharClass::Digit));
    pieces.push(Piece::Mark('.'));
    pieces.push(Piece::Run(CharClass::Digit));
    assert(pieces@ =~= time_pieces());
    pieces
}

/// Reads a time at the server, such as `2024-05-05 00:00:03.294`, and hands back its
/// year.
pub fn parse_server_time<'a>(input: &'a str) -> (r: Result<(&'a str, &'a str), NoMatch>)
    ensures
        match server_time_spec(input@) {
            Some((rest, year)) => r matches Ok((x, y)) && x@ == rest && y@ == year,
            None => r is Err,
        },
{
    let s = chars_of(input);
    assert(s@.skip(0) == s@);
    let pieces = server_time_pieces();
    match skip_pieces(&s, 0, &pieces) {
        None => Err(NoMatch),
        Some(end) => {
            let year = run_end(&s, 0, CharClass::Digit);
            Ok((rest_from(input, end), part_of(input, 0, year)))
        },
    }
}

/// Reads a topic, such as `[byts/DATA/CN18b08cf88f1]`, and hands back its levels.
pub fn parse_topic_name<'a>(input: &'a str) -> (r: Result<(&'a str, Vec<&'a str>), NoMatch>)
    ensures
        match topic_name_spec(input@) {
            Some((rest, levels)) => r matches Ok((x, ls)) && x@ == rest && text_views(ls@)
                == levels,
            None => r is Err,
        },
{
    proof {
        reveal_strlit("[");
        reveal_strlit("]");
        reveal_strlit("/");
        assert("["@ == seq!['['] && "]"@ == seq![']'] && "/"@ == seq!['/']);
    }
    let input = match take_tag(input, "[") {
        Ok(rest) => rest,
        Err(e) => {
            return Err(e);
        },
    };
    let (after_first, first) = match take_class1(input, CharClass::Alphanumeric) {
        Ok(found) => found,
        Err(e) => {
            return Err(e);
        },
    };
    let mut levels: Vec<&'a str> = Vec::new();
    levels.push(first);
    let mut rest = after_first;
    let ghost whole = topic_levels(after_first@);
    assert(text_views(levels@) == seq![first@]);
    assert(seq![first@] + whole.1 == text_views(levels@) + whole.1);
    loop
        invariant
            "/"@ == seq!['/'],
            whole.0 == topic_levels(rest@).0,
            seq![first@] + whole.1 == text_views(levels@) + topic_levels(rest@).1,
        ensures
            whole.0 == rest@,
            seq![first@] + whole.1 == text_views(levels@),
        decreases rest@.len(),
    {
        let ghost before = text_views(levels@);
        match take_tag(rest, "/") {
            Err(_) => {
                assert(before + Seq::<Seq<char>>::empty() == before);
                break ;
            },
            Ok(after_slash) => match take_class1(after_slash, CharClass::Alphanumeric) {
                Err(_) => {
                    assert(before + Seq::<Seq<char>>::empty() == before);
                    break ;
                },
                Ok((next, level)) => {
                    proof {
                        lemma_run(after_slash@, CharClass::Alphanumeric);
                    }
                    let ghost more = topic_levels(next@).1;
                    levels.push(level);
                    assert(text_views(levels@) == before.push(level@));
                    assert(before + (seq![level@] + more) == text_views(levels@) + more);
                    rest = next;
                },
            },
        }
    }
    match take_tag(rest, "]") {
        Ok(rest) => Ok((rest, levels)),
        Err(e) => Err(e),
    }
}

/// Reads the data of a line: after `D:`, the JSON text up to the end of the line.
pub fn parse_json<'a>(input: &'a str) -> (r: Result<(&'a str, &'a str), NoMatch>)
    ensures
        match json_spec(input@) {
            Some((rest, json)) => r matches Ok((x, j)) && x@ == rest && j@ == json,
            None => r is Err,
        },
{
    proof {
        reveal_strlit("D:");
        assert("D:"@ == seq!['D', ':']);
    }
    match take_tag(input, "D:") {
        Ok(rest) => take_line(rest),
        Err(e) => Err(e),
    }
}

/// Reads a log line and hands back its data as JSON text.
///
/// Succeeds exactly when `input` begins with a time, blanks, a topic, blanks, and `D:`
/// with a line after it; the line feeds after the data are passed over.
pub fn parse_log<'a>(input: &'a str) -> (r: Result<(&'a str, &'a str), NoMatch>)
    ensures
        match log_spec(input@) {
            Some((rest, json)) => r matches Ok((x, j)) && x@ == rest && j@ == json,
            None => r is Err,
        },
{
    let (input, _) = match parse_server_time(input) {
        Ok(found) => found,
        Err(e) => {
            return Err(e);
        },
    };
    let (input, _) = match take_class1(input, CharClass::Blank) {
        Ok(found) => found,
        Err(e) => {
            return Err(e);
        },
    };
    let (input, _) = match parse_topic_name(input) {
        Ok(found) => found,
        Err(e) => {
            return Err(e);
        },
    };
    let (input, _) = match take_class1(input, CharClass::Blank) {
        Ok(found) => found,
        Err(e) => {
            return Err(e);
        },
    };
    let (input, json) = match parse_json(input) {
        Ok(found) => found,
        Err(e) => {
            return Err(e);
        },
    };
    Ok((skip_class(input, CharClass::LineFeed), json))
}

} // verus!
