//! The record of a weather station: facts such as `Country = NORWAY`, one to a line,
//! the heading `Obs:`, and the temperatures of each year.
//!
//! Keys and values are trimmed of white space, a year is kept as its digits, and a
//! record may hold no fact and no observation. For the reading that keeps keys and
//! values as they are written, see [`crate::almanac`].

use vstd::prelude::*;
use crate::float::{float_spec, lemma_float_shortens, take_float};
use crate::scan::{
    after_tag,
    part_of,
    rest_from,
    skip_class,
    skip_run,
    take_class1,
    take_line,
    take_run1,
    take_tag,
    take_until1,
    till_line_ending,
    trim_text,
    until1,
    NoMatch,
};
use crate::text::{chars_of, lemma_gap, lemma_run, run_end, trim, trim_bounds, CharClass};

verus! {

/// One fact about a station: a key and its value.
#[derive(Debug, Clone, Copy, PartialEq, Eq)]
pub struct Kv<'a> {
    pub key: &'a str,
    pub value: &'a str,
}

/// The temperatures of one year, each kept as the text that writes it.
#[derive(Debug, Clone, PartialEq, Eq)]
pub struct Observation<'a> {
    pub year: &'a str,
    pub temperatures: Vec<&'a str>,
}

/// The record of a station: its facts and its observations.
#[derive(Debug, Clone, PartialEq, Eq)]
pub struct WeatherStation<'a> {
    pub kvs: Vec<Kv<'a>>,
    pub observations: Vec<Observation<'a>>,
}

/// The mathematical value of a [`Kv`].
pub struct KvView {
    pub key: Seq<char>,
    pub value: Seq<char>,
}

/// The mathematical value of an [`Observation`].
pub struct ObservationView {
    pub year: Seq<char>,
    pub temperatures: Seq<Seq<char>>,
}

/// The mathematical value of a [`WeatherStation`].
pub struct WeatherStationView {
    pub kvs: Seq<KvView>,
    pub observations: Seq<ObservationView>,
}

impl<'a> View for Kv<'a> {
    type V = KvView;

    open spec fn view(&self) -> KvView {
        KvView { key: self.key@, value: self.value@ }
    }
}

/// The views of the texts of `list`, in order.
pub open spec fn text_views<'a>(list: Seq<&'a str>) -> Seq<Seq<char>> {
    list.map_values(|t: &'a str| t@)
}

impl<'a> View for Observation<'a> {
    type V = ObservationView;

    open spec fn view(&self) -> ObservationView {
        ObservationView { year: self.year@, temperatures: text_views(self.temperatures@) }
    }
}

/// The views of the facts of `list`, in order.
pub open spec fn kv_views<'a>(list: Seq<Kv<'a>>) -> Seq<KvView> {
    list.map_values(|k: Kv<'a>| k@)
}

/// The views of the observations of `list`, in order.
pub open spec fn observation_views<'a>(list: Seq<Observation<'a>>) -> Seq<ObservationView> {
    list.map_values(|o: Observation<'a>| o@)
}

impl<'a> View for WeatherStation<'a> {
    type V = WeatherStationView;

    open spec fn view(&self) -> WeatherStationView {
        WeatherStationView {
            kvs: kv_views(self.kvs@),
            observations: observation_views(self.observations@),
        }
    }
}

/// The key that `s` begins with, and what stands from the first `=` on: after blanks,
/// what stands before that `=`, one character at least, trimmed of white space.
pub open spec fn key_spec(s: Seq<char>) -> Option<(Seq<char>, Seq<char>)> {
    match take_until1(skip_run(s, CharClass::Blank), seq!['=']) {
        None => None,
        Some((rest, key)) => Some((rest, trim(key, CharClass::Whitespace))),
    }
}

/// The value that `s` begins with, and what stands from the end of the line on: after
/// blanks, what stands before the end of the line, trimmed of white space.
pub open spec fn value_spec(s: Seq<char>) -> Option<(Seq<char>, Seq<char>)> {
    match till_line_ending(skip_run(s, CharClass::Blank)) {
        None => None,
        Some((rest, value)) => Some((rest, trim(value, CharClass::Whitespace))),
    }
}

/// The fact that `s` begins with, and what follows it: a key, `=` and a value.
pub open spec fn kv_pair_spec(s: Seq<char>) -> Option<(Seq<char>, KvView)> {
    match key_spec(s) {
        None => None,
        Some((s1, key)) => match after_tag(s1, seq!['=']) {
            None => None,
            Some(s2) => match value_spec(s2) {
                None => None,
                Some((rest, value)) => Some((rest, KvView { key, value })),
            },
        },
    }
}

/// The temperature that `s` begins with, and what follows it: after blanks, a number.
pub open spec fn one_temperature(s: Seq<char>) -> Option<(Seq<char>, Seq<char>)> {
    float_spec(skip_run(s, CharClass::Blank))
}

/// The year that `s` begins with, and what follows it: after blanks, digits, one at
/// least.
pub open spec fn year_spec(s: Seq<char>) -> Option<(Seq<char>, Seq<char>)> {
    take_run1(skip_run(s, CharClass::Blank), CharClass::Digit)
}

/// `s` without the line feed that may lead it.
pub open spec fn after_line_feed(s: Seq<char>) -> Seq<char> {
    match after_tag(s, seq!['\n']) {
        Some(rest) => rest,
        None => s,
    }
}

/// The heading that `s` begins with, and what follows it: after blanks, letters and
/// digits, one at least, and a colon. The heading is handed back with its colon.
pub open spec fn obs_spec(s: Seq<char>) -> Option<(Seq<char>, Seq<char>)> {
    match take_run1(skip_run(s, CharClass::Blank), CharClass::Alphanumeric) {
        None => None,
        Some((s1, _)) => match after_tag(s1, seq![':']) {
            None => None,
            Some(rest) => Some(
                (rest, trim(s.take(s.len() - rest.len()), CharClass::Whitespace)),
            ),
        },
    }
}

/// The facts that `s` begins with, as many as can be read one after another, and what
/// follows them.
pub open spec fn kvs_spec(s: Seq<char>) -> (Seq<char>, Seq<KvView>)
    decreases s.len(),
{
    match kv_pair_spec(s) {
        Some((rest, first)) if rest.len() < s.len() => {
            let (end, more) = kvs_spec(rest);
            (end, seq![first] + more)
        },
        _ => (s, Seq::empty()),
    }
}

/// The temperatures that `s` begins with, as many as can be read one after another, and
/// what follows them.
pub open spec fn more_temperatures(s: Seq<char>) -> (Seq<char>, Seq<Seq<char>>)
    decreases s.len(),
{
    match one_temperature(s) {
        Some((rest, first)) if rest.len() < s.len() => {
            let (end, more) = more_temperatures(rest);
            (end, seq![first] + more)
        },
        _ => (s, Seq::empty()),
    }
}

/// The temperatures that `s` begins with, one at least, and what follows them.
pub open spec fn temperatures_spec(s: Seq<char>) -> Option<(Seq<char>, Seq<Seq<char>>)> {
    match one_temperature(s) {
        None => None,
        Some((s1, first)) => {
            let (rest, more) = more_temperatures(s1);
            Some((rest, seq![first] + more))
        },
    }
}

/// The observation that `s` begins with, and what follows it: a year and its
/// temperatures, and a line feed, if there is one.
pub open spec fn observation_spec(s: Seq<char>) -> Option<(Seq<char>, ObservationView)> {
    match year_spec(s) {
        None => None,
        Some((s1, year)) => match temperatures_spec(s1) {
            None => None,
            Some((s2, temperatures)) => Some(
                (after_line_feed(s2), ObservationView { year, temperatures }),
            ),
        },
    }
}

/// The observations that `s` begins with, as many as can be read one after another, and
/// what follows them.
pub open spec fn observations_spec(s: Seq<char>) -> (Seq<char>, Seq<ObservationView>)
    decreases s.len(),
{
    match observation_spec(s) {
        Some((rest, first)) if rest.len() < s.len() => {
            let (end, more) = observations_spec(rest);
            (end, seq![first] + more)
        },
        _ => (s, Seq::empty()),
    }
}

/// The record that `s` begins with, and what follows it: facts, a heading and
/// observations.
pub open spec fn weather_spec(s: Seq<char>) -> Option<(Seq<char>, WeatherStationView)> {
    let (s1, kvs) = kvs_spec(s);
    match obs_spec(s1) {
        None => None,
        Some((s2, _)) => {
            let (rest, observations) = observations_spec(s2);
            Some((rest, WeatherStationView { kvs, observations }))
        },
    }
}

/// Reads a key: after blanks, what stands before the next `=`, trimmed of white space.
pub fn parse_key<'a>(input: &'a str) -> (r: Result<(&'a str, &'a str), NoMatch>)
    ensures
        match key_spec(input@) {
            Some((rest, key)) => r matches Ok((x, k)) && x@ == rest && k@ == key,
            None => r is Err,
        },
{
    proof {
        reveal_strlit("=");
        assert("="@ == seq!['=']);
    }
    let input = skip_class(input, CharClass::Blank);
    let s = chars_of(input);
    assert(s@.skip(0) == s@);
    match until1(&s, 0, "=") {
        None => Err(NoMatch),
        Some(at) => Ok((rest_from(input, at), trim_text(part_of(input, 0, at)))),
    }
}

/// Reads a value: after blanks, what stands before the end of the line, trimmed of
/// white space.
pub fn parse_value<'a>(input: &'a str) -> (r: Result<(&'a str, &'a str), NoMatch>)
    ensures
        match value_spec(input@) {
            Some((rest, value)) => r matches Ok((x, v)) && x@ == rest && v@ == value,
            None => r is Err,
        },
{
    let input = skip_class(input, CharClass::Blank);
    let (rest, line) = take_line(input)?;
    Ok((rest, trim_text(line)))
}

/// Reads one fact, such as `    Country = NORWAY`.
pub fn parse_kv_pair<'a>(input: &'a str) -> (r: Result<(&'a str, Kv<'a>), NoMatch>)
    ensures
        match kv_pair_spec(input@) {
            Some((rest, kv)) => r matches Ok((x, k)) && x@ == rest && k@ == kv,
            None => r is Err,
        },
{
    proof {
        reveal_strlit("=");
        assert("="@ == seq!['=']);
    }
    let (input, key) = parse_key(input)?;
    let input = take_tag(input, "=")?;
    let (input, value) = parse_value(input)?;
    Ok((input, Kv { key, value }))
}

/// A fact that is read uses up one character at least.
proof fn lemma_kv_pair_consumes(s: Seq<char>)
    ensures
        kv_pair_spec(s) matches Some((rest, _)) ==> rest.len() < s.len(),
{
    if let Some((rest, _)) = kv_pair_spec(s) {
        lemma_run(s, CharClass::Blank);
        let t = skip_run(s, CharClass::Blank);
        crate::text::lemma_index_of_seq(t, seq!['='], 0);
        let s1 = key_spec(s).unwrap().0;
        let s2 = after_tag(s1, seq!['=']).unwrap();
        lemma_run(s2, CharClass::Blank);
        lemma_gap(skip_run(s2, CharClass::Blank), CharClass::LineBreak);
    }
}

/// Reads one temperature: after blanks, a number, which is handed back as text.
fn parse_one_temperature<'a>(input: &'a str) -> (r: Result<(&'a str, &'a str), NoMatch>)
    ensures
        match one_temperature(input@) {
            Some((rest, text)) => r matches Ok((x, t)) && x@ == rest && t@ == text,
            None => r is Err,
        },
{
    take_float(skip_class(input, CharClass::Blank))
}

/// A temperature that is read uses up one character at least.
proof fn lemma_temperature_consumes(s: Seq<char>)
    ensures
        one_temperature(s) matches Some((rest, _)) ==> rest.len() < s.len(),
{
    lemma_run(s, CharClass::Blank);
    lemma_float_shortens(skip_run(s, CharClass::Blank));
}

/// Reads facts one after another until none can be read. Never fails.
pub fn parse_kvs<'a>(input: &'a str) -> (r: Result<(&'a str, Vec<Kv<'a>>), NoMatch>)
    ensures
        r matches Ok((x, v)) && x@ == kvs_spec(input@).0 && kv_views(v@) == kvs_spec(input@).1,
{
    let mut list: Vec<Kv<'a>> = Vec::new();
    let mut rest = input;
    let ghost whole = kvs_spec(input@);
    assert(kv_views(list@) + whole.1 == whole.1);
    loop
        invariant
            whole == kvs_spec(input@),
            whole.0 == kvs_spec(rest@).0,
            whole.1 == kv_views(list@) + kvs_spec(rest@).1,
        decreases rest@.len(),
    {
        proof {
            lemma_kv_pair_consumes(rest@);
        }
        match parse_kv_pair(rest) {
            Err(_) => {
                assert(kv_views(list@) + Seq::<KvView>::empty() == kv_views(list@));
                return Ok((rest, list));
            },
            Ok((next, item)) => {
                let ghost before = kv_views(list@);
                let ghost more = kvs_spec(next@).1;
                let ghost view = kv_views(seq![item])[0];
                list.push(item);
                assert(kv_views(list@) == before.push(view));
                assert(before + (seq![view] + more) == kv_views(list@) + more);
                rest = next;
            },
        }
    }
}

/// Reads temperatures one after another until none can be read.
fn parse_more_temperatures<'a>(input: &'a str) -> (r: Result<(&'a str, Vec<&'a str>), NoMatch>)
    ensures
        r matches Ok((x, v)) && x@ == more_temperatures(input@).0 && text_views(v@) == more_temperatures(input@).1,
{
    let mut list: Vec<&'a str> = Vec::new();
    let mut rest = input;
    let ghost whole = more_temperatures(input@);
    assert(text_views(list@) + whole.1 == whole.1);
    loop
        invariant
            whole == more_temperatures(input@),
            whole.0 == more_temperatures(rest@).0,
            whole.1 == text_views(list@) + more_temperatures(rest@).1,
        decreases rest@.len(),
    {
        proof {
            lemma_temperature_consumes(rest@);
        }
        match parse_one_temperature(rest) {
            Err(_) => {
                assert(text_views(list@) + Seq::<Seq<char>>::empty() == text_views(list@));
                return Ok((rest, list));
            },
            Ok((next, item)) => {
                let ghost before = text_views(list@);
                let ghost more = more_temperatures(next@).1;
                let ghost view = text_views(seq![item])[0];
                list.push(item);
                assert(text_views(list@) == before.push(view));
                assert(before + (seq![view] + more) == text_views(list@) + more);
                rest = next;
            },
        }
    }
}

/// Reads temperatures one after another, one at least, until none can be read. Each is
/// handed back as the text that writes it.
pub fn parse_temperatures<'a>(input: &'a str) -> (r: Result<(&'a str, Vec<&'a str>), NoMatch>)
    ensures
        match temperatures_spec(input@) {
            Some((rest, list)) => r matches Ok((x, v)) && x@ == rest && text_views(v@) == list,
            None => r is Err,
        },
{
    let (input, first) = parse_one_temperature(input)?;
    let (input, mut list) = parse_more_temperatures(input)?;
    let ghost more = text_views(list@);
    list.insert(0, first);
    assert(text_views(list@) == seq![first@] + more);
    Ok((input, list))
}

/// Reads a year: after blanks, digits.
pub fn parse_year<'a>(input: &'a str) -> (r: Result<(&'a str, &'a str), NoMatch>)
    ensures
        match year_spec(input@) {
            Some((rest, year)) => r matches Ok((x, y)) && x@ == rest && y@ == year,
            None => r is Err,
        },
{
    take_class1(skip_class(input, CharClass::Blank), CharClass::Digit)
}

/// Reads the observation of one year, with the line feed after it.
pub fn parse_observation<'a>(input: &'a str) -> (r: Result<(&'a str, Observation<'a>), NoMatch>)
    ensures
        match observation_spec(input@) {
            Some((rest, observation)) => r matches Ok((x, o)) && x@ == rest && o@ == observation,
            None => r is Err,
        },
{
    proof {
        reveal_strlit("\n");
        assert("\n"@ == seq!['\n']);
    }
    let (input, year) = parse_year(input)?;
    let (input, temperatures) = parse_temperatures(input)?;
    let input = match take_tag(input, "\n") {
        Ok(rest) => rest,
        Err(_) => input,
    };
    Ok((input, Observation { year, temperatures }))
}

/// An observation that is read uses up one character at least.
proof fn lemma_observation_consumes(s: Seq<char>)
    ensures
        observation_spec(s) matches Some((rest, _)) ==> rest.len() < s.len(),
{
    if let Some((rest, _)) = observation_spec(s) {
        lemma_run(s, CharClass::Blank);
        lemma_run(skip_run(s, CharClass::Blank), CharClass::Digit);
        let s1 = year_spec(s).unwrap().0;
        lemma_temperature_consumes(s1);
        let t = one_temperature(s1).unwrap().0;
        lemma_more_temperatures_shorten(t);
    }
}

/// Further temperatures that are read leave no more text than they were read from.
proof fn lemma_more_temperatures_shorten(s: Seq<char>)
    ensures
        more_temperatures(s).0.len() <= s.len(),
    decreases s.len(),
{
    if let Some((rest, _)) = one_temperature(s) {
        if rest.len() < s.len() {
            lemma_more_temperatures_shorten(rest);
        }
    }
}

/// Reads the heading of the observations, such as `    Obs:`, and hands it back
/// trimmed of white space.
pub fn parse_obs<'a>(input: &'a str) -> (r: Result<(&'a str, &'a str), NoMatch>)
    ensures
        match obs_spec(input@) {
            Some((rest, heading)) => r matches Ok((x, h)) && x@ == rest && h@ == heading,
            None => r is Err,
        },
{
    proof {
        reveal_strlit(":");
        assert(":"@ == seq![':']);
    }
    let s = chars_of(input);
    assert(s@.skip(0) == s@);
    let from = run_end(&s, 0, CharClass::Blank);
    let end = run_end(&s, from, CharClass::Alphanumeric);
    assert(s@.skip(from as int).skip(end - from) == s@.skip(end as int));
    if end == from || !crate::scan::tag_at(&s, end, ":") {
        return Err(NoMatch);
    }
    assert(s@.skip(end as int).skip(1) == s@.skip(end + 1));
    assert(s@.take(end + 1) == s@.subrange(0, end + 1));
    let (a, b) = trim_bounds(&s, 0, end + 1, CharClass::Whitespace);
    Ok((rest_from(input, end + 1), part_of(input, a, b)))
}

/// Reads observations one after another until none can be read. Never fails.
pub fn parse_observations<'a>(input: &'a str) -> (r: Result<(&'a str, Vec<Observation<'a>>), NoMatch>)
    ensures
        r matches Ok((x, v)) && x@ == observations_spec(input@).0 && observation_views(v@) == observations_spec(input@).1,
{
    let mut list: Vec<Observation<'a>> = Vec::new();
    let mut rest = input;
    let ghost whole = observations_spec(input@);
    assert(observation_views(list@) + whole.1 == whole.1);
    loop
        invariant
            whole == observations_spec(input@),
            whole.0 == observations_spec(rest@).0,
            whole.1 == observation_views(list@) + observations_spec(rest@).1,
        decreases rest@.len(),
    {
        proof {
            lemma_observation_consumes(rest@);
        }
        match parse_observation(rest) {
            Err(_) => {
                assert(observation_views(list@) + Seq::<ObservationView>::empty() == observation_views(list@));
                return Ok((rest, list));
            },
            Ok((next, item)) => {
                let ghost before = observation_views(list@);
                let ghost more = observations_spec(next@).1;
                let ghost view = observation_views(seq![item])[0];
                list.push(item);
                assert(observation_views(list@) == before.push(view));
                assert(before + (seq![view] + more) == observation_views(list@) + more);
                rest = next;
            },
        }
    }
}

/// Reads the record of a station: its facts, the heading of the observations, and the
/// observations.
///
/// Succeeds exactly when the heading follows the facts that can be read.
pub fn parse_weather<'a>(input: &'a str) -> (r: Result<(&'a str, WeatherStation<'a>), NoMatch>)
    ensures
        match weather_spec(input@) {
            Some((rest, station)) => r matches Ok((x, w)) && x@ == rest && w@ == station,
            None => r is Err,
        },
{
    let (input, kvs) = parse_kvs(input)?;
    let (input, _) = parse_obs(input)?;
    let (input, observations) = parse_observations(input)?;
    Ok((input, WeatherStation { kvs, observations }))
}

} // verus!
