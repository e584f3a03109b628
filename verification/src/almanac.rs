//! The yearly record of a weather station: facts such as `    Name= Jan Mayen`, one to
//! a line, and under `    Obs:` the temperatures of each year, month by month.
//!
//! Every line is indented. Keys and values are kept as they are written, a year is a
//! number below 65536, and a record has one fact and one observation at least. For a
//! reading that trims keys and values and asks for no indentation, see
//! [`crate::weather`].

use vstd::prelude::*;
use vstd::string::StringExecFns;
use crate::float::{double_spec, lemma_double_shortens, or_halt, take_double, Halt, Parsed};
use crate::scan::{
    after_tag,
    skip_class,
    skip_run,
    string_views,
    take_class1,
    take_gap1,
    take_outside1,
    take_run1,
    take_tag,
    take_unsigned,
    unsigned_decimal,
};
use crate::text::{lemma_gap, lemma_run, CharClass};

verus! {

/// One fact about a station: a key and its value.
#[derive(Debug, Clone, PartialEq, Eq)]
pub struct KeyVal {
    pub key: String,
    pub value: String,
}

/// The temperatures of one year, each kept as the text that writes it.
#[derive(Debug, Clone, PartialEq, Eq)]
pub struct Observation {
    pub year: u16,
    pub temperatures: Vec<String>,
}

/// The mathematical value of a [`KeyVal`].
pub struct KeyValView {
    pub key: Seq<char>,
    pub value: Seq<char>,
}

/// The mathematical value of an [`Observation`].
pub struct ObservationView {
    pub year: u16,
    pub temperatures: Seq<Seq<char>>,
}

impl View for KeyVal {
    type V = KeyValView;

    open spec fn view(&self) -> KeyValView {
        KeyValView { key: self.key@, value: self.value@ }
    }
}

impl View for Observation {
    type V = ObservationView;

    open spec fn view(&self) -> ObservationView {
        ObservationView { year: self.year, temperatures: string_views(self.temperatures@) }
    }
}

/// The views of the facts of `list`, in order.
pub open spec fn keyval_views(list: Seq<KeyVal>) -> Seq<KeyValView> {
    list.map_values(|k: KeyVal| k@)
}

/// The views of the observations of `list`, in order.
pub open spec fn observation_views(list: Seq<Observation>) -> Seq<ObservationView> {
    list.map_values(|o: Observation| o@)
}

/// The key that `s` begins with, and what stands from the first `=` on: the characters
/// before that `=`, one at least; all of `s` when it holds no `=`.
pub open spec fn key_spec(s: Seq<char>) -> Option<(Seq<char>, Seq<char>)> {
    take_gap1(s, CharClass::Is('='))
}

/// The value that `s` begins with, and what stands from the first line feed on: the
/// characters before that line feed, one at least; all of `s` when it holds none.
pub open spec fn value_spec(s: Seq<char>) -> Option<(Seq<char>, Seq<char>)> {
    take_gap1(s, CharClass::Is('\n'))
}

/// The temperature that `s` begins with, and what follows it: blanks, one at least, and
/// a number.
pub open spec fn one_temperature(s: Seq<char>) -> Parsed<Seq<char>> {
    match take_run1(s, CharClass::Blank) {
        None => Parsed::NoMatch,
        Some((rest, _)) => double_spec(rest),
    }
}

/// The fact that `s` begins with, and what follows it: after line feeds and blanks, one
/// at least, a key, `=`, blanks and a value; then line feeds.
pub open spec fn keyval_spec(s: Seq<char>) -> Parsed<KeyValView> {
    match take_run1(skip_run(s, CharClass::LineFeed), CharClass::Blank) {
        None => Parsed::NoMatch,
        Some((s1, _)) => match key_spec(s1) {
            None => Parsed::NoMatch,
            Some((s2, key)) => match after_tag(s2, seq!['=']) {
                None => Parsed::NoMatch,
                Some(s3) => match value_spec(skip_run(s3, CharClass::Blank)) {
                    None => Parsed::NoMatch,
                    Some((s4, value)) => Parsed::Match(
                        skip_run(s4, CharClass::LineFeed),
                        KeyValView { key, value },
                    ),
                },
            },
        },
    }
}

/// The temperatures that `s` begins with, after the first, as many as can be read, and
/// what follows them.
pub open spec fn more_temperatures(s: Seq<char>) -> Parsed<Seq<Seq<char>>>
    decreases s.len(),
{
    match one_temperature(s) {
        Parsed::NoMatch => Parsed::Match(s, Seq::empty()),
        Parsed::Failure => Parsed::Failure,
        Parsed::Match(rest, first) => if rest.len() < s.len() {
            match more_temperatures(rest) {
                Parsed::Match(end, more) => Parsed::Match(end, seq![first] + more),
                Parsed::NoMatch => Parsed::NoMatch,
                Parsed::Failure => Parsed::Failure,
            }
        } else {
            Parsed::NoMatch
        },
    }
}

/// The temperatures that `s` begins with, one at least, and what follows them.
pub open spec fn temperature_spec(s: Seq<char>) -> Parsed<Seq<Seq<char>>> {
    match one_temperature(s) {
        Parsed::NoMatch => Parsed::NoMatch,
        Parsed::Failure => Parsed::Failure,
        Parsed::Match(rest, first) => match more_temperatures(rest) {
            Parsed::Match(end, more) => Parsed::Match(end, seq![first] + more),
            Parsed::NoMatch => Parsed::NoMatch,
            Parsed::Failure => Parsed::Failure,
        },
    }
}

/// The facts that `s` begins with, after the first, as many as can be read, and what
/// follows them.
pub open spec fn more_keyvals(s: Seq<char>) -> Parsed<Seq<KeyValView>>
    decreases s.len(),
{
    match keyval_spec(s) {
        Parsed::NoMatch => Parsed::Match(s, Seq::empty()),
        Parsed::Failure => Parsed::Failure,
        Parsed::Match(rest, first) => if rest.len() < s.len() {
            match more_keyvals(rest) {
                Parsed::Match(end, more) => Parsed::Match(end, seq![first] + more),
                Parsed::NoMatch => Parsed::NoMatch,
                Parsed::Failure => Parsed::Failure,
            }
        } else {
            Parsed::NoMatch
        },
    }
}

/// The facts that `s` begins with, one at least, and what follows them.
pub open spec fn keyvals_spec(s: Seq<char>) -> Parsed<Seq<KeyValView>> {
    match keyval_spec(s) {
        Parsed::NoMatch => Parsed::NoMatch,
        Parsed::Failure => Parsed::Failure,
        Parsed::Match(rest, first) => match more_keyvals(rest) {
            Parsed::Match(end, more) => Parsed::Match(end, seq![first] + more),
            Parsed::NoMatch => Parsed::NoMatch,
            Parsed::Failure => Parsed::Failure,
        },
    }
}

/// The observation that `s` begins with, and what follows it: after line feeds and
/// blanks, one at least, a year below 65536 and its temperatures; then line feeds.
pub open spec fn observation_spec(s: Seq<char>) -> Parsed<ObservationView> {
    match take_run1(skip_run(s, CharClass::LineFeed), CharClass::Blank) {
        None => Parsed::NoMatch,
        Some((s1, _)) => match unsigned_decimal(s1, u16::MAX as int) {
            None => Parsed::NoMatch,
            Some((s2, year)) => match temperature_spec(s2) {
                Parsed::NoMatch => Parsed::NoMatch,
                Parsed::Failure => Parsed::Failure,
                Parsed::Match(s3, temperatures) => Parsed::Match(
                    skip_run(s3, CharClass::LineFeed),
                    ObservationView { year: year as u16, temperatures },
                ),
            },
        },
    }
}

/// The observations that `s` begins with, after the first, as many as can be read, and
/// what follows them.
pub open spec fn more_observations(s: Seq<char>) -> Parsed<Seq<ObservationView>>
    decreases s.len(),
{
    match observation_spec(s) {
        Parsed::NoMatch => Parsed::Match(s, Seq::empty()),
        Parsed::Failure => Parsed::Failure,
        Parsed::Match(rest, first) => if rest.len() < s.len() {
            match more_observations(rest) {
                Parsed::Match(end, more) => Parsed::Match(end, seq![first] + more),
                Parsed::NoMatch => Parsed::NoMatch,
                Parsed::Failure => Parsed::Failure,
            }
        } else {
            Parsed::NoMatch
        },
    }
}

/// The observations that `s` begins with, one at least, and what follows them.
pub open spec fn observation_list_spec(s: Seq<char>) -> Parsed<Seq<ObservationView>> {
    match observation_spec(s) {
        Parsed::NoMatch => Parsed::NoMatch,
        Parsed::Failure => Parsed::Failure,
        Parsed::Match(rest, first) => match more_observations(rest) {
            Parsed::Match(end, more) => Parsed::Match(end, seq![first] + more),
            Parsed::NoMatch => Parsed::NoMatch,
            Parsed::Failure => Parsed::Failure,
        },
    }
}

/// The observations that `s` begins with under their heading, and what follows them:
/// after line feeds and blanks, one at least, a word of letters and a colon; then line
/// feeds and observations, one at least.
pub open spec fn observations_spec(s: Seq<char>) -> Parsed<Seq<ObservationView>> {
    match take_run1(skip_run(s, CharClass::LineFeed), CharClass::Blank) {
        None => Parsed::NoMatch,
        Some((s1, _)) => match take_run1(s1, CharClass::Alpha) {
            None => Parsed::NoMatch,
            Some((s2, _)) => match after_tag(s2, seq![':']) {
                None => Parsed::NoMatch,
                Some(s3) => observation_list_spec(skip_run(s3, CharClass::LineFeed)),
            },
        },
    }
}

/// The record that `s` begins with, and what follows it: facts, one at least, and
/// observations under their heading.
pub open spec fn weather_spec(s: Seq<char>) -> Parsed<(Seq<KeyValView>, Seq<ObservationView>)> {
    match keyvals_spec(s) {
        Parsed::NoMatch => Parsed::NoMatch,
        Parsed::Failure => Parsed::Failure,
        Parsed::Match(s1, facts) => match observations_spec(s1) {
            Parsed::NoMatch => Parsed::NoMatch,
            Parsed::Failure => Parsed::Failure,
            Parsed::Match(rest, observations) => Parsed::Match(rest, (facts, observations)),
        },
    }
}

/// Reads a key: what stands before the next `=`.
pub fn parse_key<'a>(input: &'a str) -> (r: Result<(&'a str, String), Halt>)
    ensures
        match key_spec(input@) {
            Some((rest, key)) => r matches Ok((x, k)) && x@ == rest && k@ == key,
            None => r == Err::<(&str, String), Halt>(Halt::NoMatch),
        },
{
    let (rest, key) = or_halt(take_outside1(input, CharClass::Is('=')))?;
    Ok((rest, String::from_str(key)))
}

/// Reads a value: what stands before the end of the line.
pub fn parse_value<'a>(input: &'a str) -> (r: Result<(&'a str, String), Halt>)
    ensures
        match value_spec(input@) {
            Some((rest, value)) => r matches Ok((x, v)) && x@ == rest && v@ == value,
            None => r == Err::<(&str, String), Halt>(Halt::NoMatch),
        },
{
    let (rest, value) = or_halt(take_outside1(input, CharClass::Is('\n')))?;
    Ok((rest, String::from_str(value)))
}

/// Reads one temperature: blanks and a number, which is handed back as text.
fn parse_one_temperature<'a>(input: &'a str) -> (r: Result<(&'a str, String), Halt>)
    ensures
        match one_temperature(input@) {
            Parsed::Match(rest, text) => r matches Ok((x, t)) && x@ == rest && t@ == text,
            Parsed::NoMatch => r == Err::<(&str, String), Halt>(Halt::NoMatch),
            Parsed::Failure => r == Err::<(&str, String), Halt>(Halt::Failure),
        },
{
    let (input, _) = or_halt(take_class1(input, CharClass::Blank))?;
    let (input, text) = take_double(input)?;
    Ok((input, String::from_str(text)))
}

/// A temperature that is read uses up one character at least.
proof fn lemma_temperature_consumes(s: Seq<char>)
    ensures
        one_temperature(s) matches Parsed::Match(rest, _) ==> rest.len() < s.len(),
{
    lemma_run(s, CharClass::Blank);
    lemma_double_shortens(skip_run(s, CharClass::Blank));
}

/// Reads one fact, such as `    Name= Jan Mayen`, with the line feeds before and after
/// it.
pub fn parse_keyval<'a>(input: &'a str) -> (r: Result<(&'a str, KeyVal), Halt>)
    ensures
        match keyval_spec(input@) {
            Parsed::Match(rest, fact) => r matches Ok((x, k)) && x@ == rest && k@ == fact,
            Parsed::NoMatch => r == Err::<(&str, KeyVal), Halt>(Halt::NoMatch),
            Parsed::Failure => r == Err::<(&str, KeyVal), Halt>(Halt::Failure),
        },
{
    proof {
        reveal_strlit("=");
        assert("="@ == seq!['=']);
    }
    let input = skip_class(input, CharClass::LineFeed);
    let (input, _) = or_halt(take_class1(input, CharClass::Blank))?;
    let (input, key) = parse_key(input)?;
    let input = or_halt(take_tag(input, "="))?;
    let input = skip_class(input, CharClass::Blank);
    let (input, value) = parse_value(input)?;
    let input = skip_class(input, CharClass::LineFeed);
    Ok((input, KeyVal { key, value }))
}

/// A fact that is read uses up one character at least.
proof fn lemma_keyval_consumes(s: Seq<char>)
    ensures
        keyval_spec(s) matches Parsed::Match(rest, _) ==> rest.len() < s.len(),
{
    if let Parsed::Match(rest, _) = keyval_spec(s) {
        lemma_run(s, CharClass::LineFeed);
        let s0 = skip_run(s, CharClass::LineFeed);
        lemma_run(s0, CharClass::Blank);
        let s1 = take_run1(s0, CharClass::Blank).unwrap().0;
        lemma_gap(s1, CharClass::Is('='));
        let s2 = key_spec(s1).unwrap().0;
        let s3 = after_tag(s2, seq!['=']).unwrap();
        lemma_run(s3, CharClass::Blank);
        let s3b = skip_run(s3, CharClass::Blank);
        lemma_gap(s3b, CharClass::Is('\n'));
        let s4 = value_spec(s3b).unwrap().0;
        lemma_run(s4, CharClass::LineFeed);
    }
}

/// Reads temperatures one after another, one at least, until none can be read. Each is
/// handed back as the text that writes it.
pub fn parse_temperature<'a>(input: &'a str) -> (r: Result<(&'a str, Vec<String>), Halt>)
    ensures
        match temperature_spec(input@) {
            Parsed::Match(rest, list) => r matches Ok((x, v)) && x@ == rest && string_views(v@) == list,
            Parsed::NoMatch => r == Err::<(&str, Vec<String>), Halt>(Halt::NoMatch),
            Parsed::Failure => r == Err::<(&str, Vec<String>), Halt>(Halt::Failure),
        },
{
    let (after_first, first) = parse_one_temperature(input)?;
    let ghost head = string_views(seq![first])[0];
    let mut list: Vec<String> = Vec::new();
    list.push(first);
    let mut rest = after_first;
    assert(string_views(list@) == seq![head]);
    loop
        invariant
            one_temperature(input@) == Parsed::Match(after_first@, head),
            match more_temperatures(rest@) {
                Parsed::Match(end, more) => more_temperatures(after_first@) == Parsed::Match(
                    end,
                    string_views(list@).skip(1) + more,
                ),
                Parsed::NoMatch => more_temperatures(after_first@) is NoMatch,
                Parsed::Failure => more_temperatures(after_first@) is Failure,
            },
            string_views(list@).len() >= 1,
            string_views(list@)[0] == head,
        decreases rest@.len(),
    {
        proof {
            lemma_temperature_consumes(rest@);
        }
        let ghost before = string_views(list@);
        match parse_one_temperature(rest) {
            Err(Halt::NoMatch) => {
                assert(before.skip(1) + Seq::<Seq<char>>::empty() == before.skip(1));
                assert(seq![head] + before.skip(1) == before);
                return Ok((rest, list));
            },
            Err(Halt::Failure) => {
                return Err(Halt::Failure);
            },
            Ok((next, item)) => {
                let ghost view = string_views(seq![item])[0];
                list.push(item);
                assert(string_views(list@) == before.push(view));
                assert forall|more: Seq<Seq<char>>|
                    before.skip(1) + (seq![view] + more) == #[trigger] (string_views(list@).skip(1)
                        + more) by {
                    assert(before.push(view).skip(1) == before.skip(1).push(view));
                }
                rest = next;
            },
        }
    }
}

/// Reads facts one after another, one at least, until none can be read.
pub fn parse_keyvals<'a>(input: &'a str) -> (r: Result<(&'a str, Vec<KeyVal>), Halt>)
    ensures
        match keyvals_spec(input@) {
            Parsed::Match(rest, list) => r matches Ok((x, v)) && x@ == rest && keyval_views(v@) == list,
            Parsed::NoMatch => r == Err::<(&str, Vec<KeyVal>), Halt>(Halt::NoMatch),
            Parsed::Failure => r == Err::<(&str, Vec<KeyVal>), Halt>(Halt::Failure),
        },
{
    let (after_first, first) = parse_keyval(input)?;
    let ghost head = keyval_views(seq![first])[0];
    let mut list: Vec<KeyVal> = Vec::new();
    list.push(first);
    let mut rest = after_first;
    assert(keyval_views(list@) == seq![head]);
    loop
        invariant
            keyval_spec(input@) == Parsed::Match(after_first@, head),
            match more_keyvals(rest@) {
                Parsed::Match(end, more) => more_keyvals(after_first@) == Parsed::Match(
                    end,
                    keyval_views(list@).skip(1) + more,
                ),
                Parsed::NoMatch => more_keyvals(after_first@) is NoMatch,
                Parsed::Failure => more_keyvals(after_first@) is Failure,
            },
            keyval_views(list@).len() >= 1,
            keyval_views(list@)[0] == head,
        decreases rest@.len(),
    {
        proof {
            lemma_keyval_consumes(rest@);
        }
        let ghost before = keyval_views(list@);
        match parse_keyval(rest) {
            Err(Halt::NoMatch) => {
                assert(before.skip(1) + Seq::<KeyValView>::empty() == before.skip(1));
                assert(seq![head] + before.skip(1) == before);
                return Ok((rest, list));
            },
            Err(Halt::Failure) => {
                return Err(Halt::Failure);
            },
            Ok((next, item)) => {
                let ghost view = keyval_views(seq![item])[0];
                list.push(item);
                assert(keyval_views(list@) == before.push(view));
                assert forall|more: Seq<KeyValView>|
                    before.skip(1) + (seq![view] + more) == #[trigger] (keyval_views(list@).skip(1)
                        + more) by {
                    assert(before.push(view).skip(1) == before.skip(1).push(view));
                }
                rest = next;
            },
        }
    }
}

/// Further temperatures that are read leave no more text than they were read from.
proof fn lemma_more_temperatures_shorten(s: Seq<char>)
    ensures
        more_temperatures(s) matches Parsed::Match(rest, _) ==> rest.len() <= s.len(),
    decreases s.len(),
{
    if let Parsed::Match(rest, _) = one_temperature(s) {
        if rest.len() < s.len() {
            lemma_more_temperatures_shorten(rest);
        }
    }
}

/// Reads the observation of one year, with the line feeds before and after it.
pub fn parse_observation<'a>(input: &'a str) -> (r: Result<(&'a str, Observation), Halt>)
    ensures
        match observation_spec(input@) {
            Parsed::Match(rest, observation) => r matches Ok((x, o)) && x@ == rest && o@
                == observation,
            Parsed::NoMatch => r == Err::<(&str, Observation), Halt>(Halt::NoMatch),
            Parsed::Failure => r == Err::<(&str, Observation), Halt>(Halt::Failure),
        },
{
    let input = skip_class(input, CharClass::LineFeed);
    let (input, _) = or_halt(take_class1(input, CharClass::Blank))?;
    let (input, year) = or_halt(take_unsigned(input, 65535))?;
    let (input, temperatures) = parse_temperature(input)?;
    let input = skip_class(input, CharClass::LineFeed);
    Ok((input, Observation { year: year as u16, temperatures }))
}

/// An observation that is read uses up one character at least.
proof fn lemma_observation_consumes(s: Seq<char>)
    ensures
        observation_spec(s) matches Parsed::Match(rest, _) ==> rest.len() < s.len(),
{
    if let Parsed::Match(rest, _) = observation_spec(s) {
        lemma_run(s, CharClass::LineFeed);
        let s0 = skip_run(s, CharClass::LineFeed);
        lemma_run(s0, CharClass::Blank);
        let s1 = take_run1(s0, CharClass::Blank).unwrap().0;
        lemma_run(s1, CharClass::Digit);
        let s2 = unsigned_decimal(s1, u16::MAX as int).unwrap().0;
        lemma_temperature_consumes(s2);
        let t = one_temperature(s2)->Match_0;
        lemma_more_temperatures_shorten(t);
        let s3 = temperature_spec(s2)->Match_0;
        lemma_run(s3, CharClass::LineFeed);
    }
}

/// Reads observations one after another, one at least, until none can be read.
fn parse_observation_list<'a>(input: &'a str) -> (r: Result<(&'a str, Vec<Observation>), Halt>)
    ensures
        match observation_list_spec(input@) {
            Parsed::Match(rest, list) => r matches Ok((x, v)) && x@ == rest && observation_views(v@) == list,
            Parsed::NoMatch => r == Err::<(&str, Vec<Observation>), Halt>(Halt::NoMatch),
            Parsed::Failure => r == Err::<(&str, Vec<Observation>), Halt>(Halt::Failure),
        },
{
    let (after_first, first) = parse_observation(input)?;
    let ghost head = observation_views(seq![first])[0];
    let mut list: Vec<Observation> = Vec::new();
    list.push(first);
    let mut rest = after_first;
    assert(observation_views(list@) == seq![head]);
    loop
        invariant
            observation_spec(input@) == Parsed::Match(after_first@, head),
            match more_observations(rest@) {
                Parsed::Match(end, more) => more_observations(after_first@) == Parsed::Match(
                    end,
                    observation_views(list@).skip(1) + more,
                ),
                Parsed::NoMatch => more_observations(after_first@) is NoMatch,
                Parsed::Failure => more_observations(after_first@) is Failure,
            },
            observation_views(list@).len() >= 1,
            observation_views(list@)[0] == head,
        decreases rest@.len(),
    {
        proof {
            lemma_observation_consumes(rest@);
        }
        let ghost before = observation_views(list@);
        match parse_observation(rest) {
            Err(Halt::NoMatch) => {
                assert(before.skip(1) + Seq::<ObservationView>::empty() == before.skip(1));
                assert(seq![head] + before.skip(1) == before);
                return Ok((rest, list));
            },
            Err(Halt::Failure) => {
                return Err(Halt::Failure);
            },
            Ok((next, item)) => {
                let ghost view = observation_views(seq![item])[0];
                list.push(item);
                assert(observation_views(list@) == before.push(view));
                assert forall|more: Seq<ObservationView>|
                    before.skip(1) + (seq![view] + more) == #[trigger] (observation_views(list@).skip(1)
                        + more) by {
                    assert(before.push(view).skip(1) == before.skip(1).push(view));
                }
                rest = next;
            },
        }
    }
}

/// Reads the observations of a record: the heading `Obs:` and the observations under
/// it, one at least.
pub fn parse_observations<'a>(input: &'a str) -> (r: Result<(&'a str, Vec<Observation>), Halt>)
    ensures
        match observations_spec(input@) {
            Parsed::Match(rest, list) => r matches Ok((x, v)) && x@ == rest && observation_views(
                v@,
            ) == list,
            Parsed::NoMatch => r == Err::<(&str, Vec<Observation>), Halt>(Halt::NoMatch),
            Parsed::Failure => r == Err::<(&str, Vec<Observation>), Halt>(Halt::Failure),
        },
{
    proof {
        reveal_strlit(":");
        assert(":"@ == seq![':']);
    }
    let input = skip_class(input, CharClass::LineFeed);
    let (input, _) = or_halt(take_class1(input, CharClass::Blank))?;
    let (input, _) = or_halt(take_class1(input, CharClass::Alpha))?;
    let input = or_halt(take_tag(input, ":"))?;
    let input = skip_class(input, CharClass::LineFeed);
    parse_observation_list(input)
}

/// Reads the record of a station: its facts and its observations.
///
/// Fails with [`Halt::NoMatch`] when the text does not begin with a fact or when no
/// observation follows the facts under a heading, and with [`Halt::Failure`] when a
/// temperature breaks off.
pub fn parse_weather<'a>(input: &'a str) -> (r: Result<
    (&'a str, (Vec<KeyVal>, Vec<Observation>)),
    Halt,
>)
    ensures
        match weather_spec(input@) {
            Parsed::Match(rest, record) => r matches Ok((x, w)) && x@ == rest && keyval_views(
                w.0@,
            ) == record.0 && observation_views(w.1@) == record.1,
            Parsed::NoMatch => r == Err::<(&str, (Vec<KeyVal>, Vec<Observation>)), Halt>(
                Halt::NoMatch,
            ),
            Parsed::Failure => r == Err::<(&str, (Vec<KeyVal>, Vec<Observation>)), Halt>(
                Halt::Failure,
            ),
        },
{
    let (input, facts) = parse_keyvals(input)?;
    let (input, observations) = parse_observations(input)?;
    Ok((input, (facts, observations)))
}

} // verus!
