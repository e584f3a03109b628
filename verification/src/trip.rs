//! Trips: a country on a line of its own, and under it its destinations, such as
//! `    Oslo : 59.914289,10.738739 : 2`.
//!
//! The name of a country is letters and digits, the parts of a destination are held
//! apart by a colon with any blanks about it, the name of a city is trimmed, and the
//! last part is a number of tickets below 4294967296. A text may hold no trip at all.
//! For the stricter reading, see [`crate::itinerary`].

use vstd::prelude::*;
use vstd::string::StringExecFns;
use crate::float::{float_spec, take_float};
use crate::scan::{
    after_tag,
    part_of,
    rest_from,
    skip_class,
    skip_run,
    take_class1,
    take_run1,
    take_tag,
    take_unsigned,
    take_until1,
    trim_text,
    unsigned_decimal,
    until1,
    NoMatch,
};
use crate::text::{chars_of, lemma_run, trim, CharClass};

verus! {

/// A place on the globe. Latitude and longitude are kept as the texts that write them.
#[derive(Debug, Clone, PartialEq, Eq)]
pub struct Coordinate {
    pub lat: String,
    pub lon: String,
}

/// A destination: its name, where it lies, and the tickets sold for it.
#[derive(Debug, Clone, PartialEq, Eq)]
pub struct Destination {
    pub name: String,
    pub coordinate: Coordinate,
    pub tickets: u32,
}

/// A country with its destinations.
#[derive(Debug, Clone, PartialEq, Eq)]
pub struct Destinations<'a> {
    pub country: &'a str,
    pub destinations: Vec<Destination>,
}

/// The mathematical value of a [`Coordinate`].
pub struct CoordinateView {
    pub lat: Seq<char>,
    pub lon: Seq<char>,
}

/// The mathematical value of a [`Destination`].
pub struct DestinationView {
    pub name: Seq<char>,
    pub coordinate: CoordinateView,
    pub tickets: u32,
}

/// The mathematical value of a [`Destinations`].
pub struct DestinationsView {
    pub country: Seq<char>,
    pub destinations: Seq<DestinationView>,
}

impl View for Coordinate {
    type V = CoordinateView;

    open spec fn view(&self) -> CoordinateView {
        CoordinateView { lat: self.lat@, lon: self.lon@ }
    }
}

impl View for Destination {
    type V = DestinationView;

    open spec fn view(&self) -> DestinationView {
        DestinationView { name: self.name@, coordinate: self.coordinate@, tickets: self.tickets }
    }
}

/// The views of the destinations of `list`, in order.
pub open spec fn destination_views(list: Seq<Destination>) -> Seq<DestinationView> {
    list.map_values(|d: Destination| d@)
}

impl<'a> View for Destinations<'a> {
    type V = DestinationsView;

    open spec fn view(&self) -> DestinationsView {
        DestinationsView {
            country: self.country@,
            destinations: destination_views(self.destinations@),
        }
    }
}

/// The views of the countries of `list`, in order.
pub open spec fn trip_views<'a>(list: Seq<Destinations<'a>>) -> Seq<DestinationsView> {
    list.map_values(|t: Destinations<'a>| t@)
}

/// The number of tickets that `s` begins with, and what follows it: after blanks, a
/// number below 4294967296.
pub open spec fn tickets_spec(s: Seq<char>) -> Option<(Seq<char>, u32)> {
    match unsigned_decimal(skip_run(s, CharClass::Blank), u32::MAX as int) {
        None => None,
        Some((rest, tickets)) => Some((rest, tickets as u32)),
    }
}

/// The place that `s` begins with, and what follows it: after blanks, two numbers with
/// a comma between them.
pub open spec fn coordinate_spec(s: Seq<char>) -> Option<(Seq<char>, CoordinateView)> {
    match float_spec(skip_run(s, CharClass::Blank)) {
        None => None,
        Some((s1, lat)) => match after_tag(s1, seq![',']) {
            None => None,
            Some(s2) => match float_spec(s2) {
                None => None,
                Some((rest, lon)) => Some((rest, CoordinateView { lat, lon })),
            },
        },
    }
}

/// The country that `s` begins with, and what follows its line: letters and digits, one
/// at least, and a line feed.
pub open spec fn country_name_spec(s: Seq<char>) -> Option<(Seq<char>, Seq<char>)> {
    match take_run1(s, CharClass::Alphanumeric) {
        None => None,
        Some((s1, name)) => match after_tag(s1, seq!['\n']) {
            None => None,
            Some(rest) => Some((rest, name)),
        },
    }
}

/// The name of a city that `s` begins with, and what stands from the first colon on:
/// after blanks, one at least, what stands before that colon, one character at least,
/// trimmed of white space.
pub open spec fn city_name_spec(s: Seq<char>) -> Option<(Seq<char>, Seq<char>)> {
    match take_run1(s, CharClass::Blank) {
        None => None,
        Some((s1, _)) => match take_until1(s1, seq![':']) {
            None => None,
            Some((rest, name)) => Some((rest, trim(name, CharClass::Whitespace))),
        },
    }
}

/// What follows a colon with blanks about it at the beginning of `s`.
pub open spec fn after_colon(s: Seq<char>) -> Option<Seq<char>> {
    match after_tag(skip_run(s, CharClass::Blank), seq![':']) {
        None => None,
        Some(rest) => Some(skip_run(rest, CharClass::Blank)),
    }
}

/// `s` without the line feed that may lead it.
pub open spec fn after_line_feed(s: Seq<char>) -> Seq<char> {
    match after_tag(s, seq!['\n']) {
        Some(rest) => rest,
        None => s,
    }
}

/// The destination that `s` begins with, and what follows it: the name of a city, a
/// place and a number of tickets, with a colon after name and place; then a line feed,
/// if there is one.
pub open spec fn destination_spec(s: Seq<char>) -> Option<(Seq<char>, DestinationView)> {
    match city_name_spec(s) {
        None => None,
        Some((s1, name)) => match after_colon(s1) {
            None => None,
            Some(s2) => match coordinate_spec(s2) {
                None => None,
                Some((s3, coordinate)) => match after_colon(s3) {
                    None => None,
                    Some(s4) => match tickets_spec(s4) {
                        None => None,
                        Some((s5, tickets)) => Some(
                            (after_line_feed(s5), DestinationView { name, coordinate, tickets }),
                        ),
                    },
                },
            },
        },
    }
}

/// The destinations that `s` begins with, as many as can be read one after another, and
/// what follows them.
pub open spec fn more_destinations(s: Seq<char>) -> (Seq<char>, Seq<DestinationView>)
    decreases s.len(),
{
    match destination_spec(s) {
        Some((rest, first)) if rest.len() < s.len() => {
            let (end, more) = more_destinations(rest);
            (end, seq![first] + more)
        },
        _ => (s, Seq::empty()),
    }
}

/// The country with its destinations that `s` begins with, and what follows them: the
/// name of the country on a line of its own, and destinations, one at least.
pub open spec fn destinations_spec(s: Seq<char>) -> Option<(Seq<char>, DestinationsView)> {
    match country_name_spec(s) {
        None => None,
        Some((s1, country)) => match destination_spec(s1) {
            None => None,
            Some((s2, first)) => {
                let (rest, more) = more_destinations(s2);
                Some((rest, DestinationsView { country, destinations: seq![first] + more }))
            },
        },
    }
}

/// The countries with their destinations that `s` begins with, as many as can be read
/// one after another, and what follows them.
pub open spec fn trips_spec(s: Seq<char>) -> (Seq<char>, Seq<DestinationsView>)
    decreases s.len(),
{
    match destinations_spec(s) {
        Some((rest, first)) if rest.len() < s.len() => {
            let (end, more) = trips_spec(rest);
            (end, seq![first] + more)
        },
        _ => (s, Seq::empty()),
    }
}

/// Reads a number with a fraction and hands back its text.
pub fn parse_float<'a>(input: &'a str) -> (r: Result<(&'a str, &'a str), NoMatch>)
    ensures
        match float_spec(input@) {
            Some((rest, text)) => r matches Ok((x, t)) && x@ == rest && t@ == text,
            None => r is Err,
        },
{
    take_float(input)
}

/// Reads a number of tickets: after blanks, a number below 4294967296.
pub fn parse_tickets<'a>(input: &'a str) -> (r: Result<(&'a str, u32), NoMatch>)
    ensures
        match tickets_spec(input@) {
            Some((rest, tickets)) => r matches Ok((x, t)) && x@ == rest && t == tickets,
            None => r is Err,
        },
{
    let input = skip_class(input, CharClass::Blank);
    let (rest, tickets) = take_unsigned(input, 0xffff_ffff)?;
    Ok((rest, tickets as u32))
}

/// Reads a place: after blanks, latitude, a comma and longitude, each handed back as
/// text.
pub fn parse_coordinate<'a>(input: &'a str) -> (r: Result<(&'a str, Coordinate), NoMatch>)
    ensures
        match coordinate_spec(input@) {
            Some((rest, coordinate)) => r matches Ok((x, c)) && x@ == rest && c@ == coordinate,
            None => r is Err,
        },
{
    proof {
        reveal_strlit(",");
        assert(","@ == seq![',']);
    }
    let input = skip_class(input, CharClass::Blank);
    let (input, lat) = parse_float(input)?;
    let input = take_tag(input, ",")?;
    let (input, lon) = parse_float(input)?;
    Ok((input, Coordinate { lat: String::from_str(lat), lon: String::from_str(lon) }))
}

/// Reads the name of a country: letters and digits, and the line feed after them.
pub fn parse_country_name<'a>(input: &'a str) -> (r: Result<(&'a str, &'a str), NoMatch>)
    ensures
        match country_name_spec(input@) {
            Some((rest, name)) => r matches Ok((x, n)) && x@ == rest && n@ == name,
            None => r is Err,
        },
{
    proof {
        reveal_strlit("\n");
        assert("\n"@ == seq!['\n']);
    }
    let (input, name) = take_class1(input, CharClass::Alphanumeric)?;
    let input = take_tag(input, "\n")?;
    Ok((input, name))
}

/// Reads the name of a city: after blanks, what stands before the next colon, trimmed
/// of white space.
pub fn parse_city_name<'a>(input: &'a str) -> (r: Result<(&'a str, &'a str), NoMatch>)
    ensures
        match city_name_spec(input@) {
            Some((rest, name)) => r matches Ok((x, n)) && x@ == rest && n@ == name,
            None => r is Err,
        },
{
    proof {
        reveal_strlit(":");
        assert(":"@ == seq![':']);
    }
    let (input, _) = take_class1(input, CharClass::Blank)?;
    let s = chars_of(input);
    assert(s@.skip(0) == s@);
    match until1(&s, 0, ":") {
        None => Err(NoMatch),
        Some(at) => Ok((rest_from(input, at), trim_text(part_of(input, 0, at)))),
    }
}

/// Passes over a colon with the blanks about it.
fn skip_colon<'a>(input: &'a str) -> (r: Result<&'a str, NoMatch>)
    ensures
        match after_colon(input@) {
            Some(rest) => r matches Ok(x) && x@ == rest,
            None => r is Err,
        },
{
    proof {
        reveal_strlit(":");
        assert(":"@ == seq![':']);
    }
    let input = skip_class(input, CharClass::Blank);
    let input = take_tag(input, ":")?;
    Ok(skip_class(input, CharClass::Blank))
}

/// Reads one destination, with the line feed after it.
pub fn parse_destination<'a>(input: &'a str) -> (r: Result<(&'a str, Destination), NoMatch>)
    ensures
        match destination_spec(input@) {
            Some((rest, destination)) => r matches Ok((x, d)) && x@ == rest && d@ == destination,
            None => r is Err,
        },
{
    proof {
        reveal_strlit("\n");
        assert("\n"@ == seq!['\n']);
    }
    let (input, name) = parse_city_name(input)?;
    let input = skip_colon(input)?;
    let (input, coordinate) = parse_coordinate(input)?;
    let input = skip_colon(input)?;
    let (input, tickets) = parse_tickets(input)?;
    let input = match take_tag(input, "\n") {
        Ok(rest) => rest,
        Err(_) => input,
    };
    Ok((input, Destination { name: String::from_str(name), coordinate, tickets }))
}

/// A destination that is read uses up one character at least.
proof fn lemma_destination_consumes(s: Seq<char>)
    ensures
        destination_spec(s) matches Some((rest, _)) ==> rest.len() < s.len(),
{
    if let Some((rest, _)) = destination_spec(s) {
        lemma_run(s, CharClass::Blank);
        let t = take_run1(s, CharClass::Blank).unwrap().0;
        crate::text::lemma_index_of_seq(t, seq![':'], 0);
        let s1 = city_name_spec(s).unwrap().0;
        lemma_colon_shortens(s1);
        let s2 = after_colon(s1).unwrap();
        lemma_coordinate_shortens(s2);
        let s3 = coordinate_spec(s2).unwrap().0;
        lemma_colon_shortens(s3);
        let s4 = after_colon(s3).unwrap();
        lemma_run(s4, CharClass::Blank);
        lemma_run(skip_run(s4, CharClass::Blank), CharClass::Digit);
    }
}

/// What follows a colon is shorter than what the colon was read from.
proof fn lemma_colon_shortens(s: Seq<char>)
    ensures
        after_colon(s) matches Some(rest) ==> rest.len() < s.len(),
{
    lemma_run(s, CharClass::Blank);
    if let Some(rest) = after_tag(skip_run(s, CharClass::Blank), seq![':']) {
        lemma_run(rest, CharClass::Blank);
    }
}

/// What follows a place is no longer than what the place was read from.
proof fn lemma_coordinate_shortens(s: Seq<char>)
    ensures
        coordinate_spec(s) matches Some((rest, _)) ==> rest.len() <= s.len(),
{
    lemma_run(s, CharClass::Blank);
    let t = skip_run(s, CharClass::Blank);
    crate::float::lemma_float_shortens(t);
    if let Some((s1, _)) = float_spec(t) {
        if let Some(s2) = after_tag(s1, seq![',']) {
            crate::float::lemma_float_shortens(s2);
        }
    }
}

/// Reads destinations one after another until none can be read.
fn parse_more_destinations<'a>(input: &'a str) -> (r: Result<(&'a str, Vec<Destination>), NoMatch>)
    ensures
        r matches Ok((x, v)) && x@ == more_destinations(input@).0 && destination_views(v@) == more_destinations(input@).1,
{
    let mut list: Vec<Destination> = Vec::new();
    let mut rest = input;
    let ghost whole = more_destinations(input@);
    assert(destination_views(list@) + whole.1 == whole.1);
    loop
        invariant
            whole == more_destinations(input@),
            whole.0 == more_destinations(rest@).0,
            whole.1 == destination_views(list@) + more_destinations(rest@).1,
        decreases rest@.len(),
    {
        proof {
            lemma_destination_consumes(rest@);
        }
        match parse_destination(rest) {
            Err(_) => {
                assert(destination_views(list@) + Seq::<DestinationView>::empty() == destination_views(list@));
                return Ok((rest, list));
            },
            Ok((next, item)) => {
                let ghost before = destination_views(list@);
                let ghost more = more_destinations(next@).1;
                let ghost view = destination_views(seq![item])[0];
                list.push(item);
                assert(destination_views(list@) == before.push(view));
                assert(before + (seq![view] + more) == destination_views(list@) + more);
                rest = next;
            },
        }
    }
}

/// Reads a country with its destinations, one at least.
pub fn parse_destinations<'a>(input: &'a str) -> (r: Result<(&'a str, Destinations<'a>), NoMatch>)
    ensures
        match destinations_spec(input@) {
            Some((rest, trip)) => r matches Ok((x, t)) && x@ == rest && t@ == trip,
            None => r is Err,
        },
{
    let (input, country) = parse_country_name(input)?;
    let (input, first) = parse_destination(input)?;
    let ghost head = first@;
    let (input, mut destinations) = parse_more_destinations(input)?;
    let ghost more = destination_views(destinations@);
    destinations.insert(0, first);
    assert(destination_views(destinations@) == seq![head] + more);
    Ok((input, Destinations { country, destinations }))
}

/// A country with destinations that is read uses up one character at least.
proof fn lemma_destinations_consume(s: Seq<char>)
    ensures
        destinations_spec(s) matches Some((rest, _)) ==> rest.len() < s.len(),
{
    if let Some((rest, _)) = destinations_spec(s) {
        lemma_run(s, CharClass::Alphanumeric);
        let s1 = country_name_spec(s).unwrap().0;
        lemma_destination_consumes(s1);
        let s2 = destination_spec(s1).unwrap().0;
        lemma_more_destinations_shorten(s2);
    }
}

/// Further destinations that are read leave no more text than they were read from.
proof fn lemma_more_destinations_shorten(s: Seq<char>)
    ensures
        more_destinations(s).0.len() <= s.len(),
    decreases s.len(),
{
    if let Some((rest, _)) = destination_spec(s) {
        if rest.len() < s.len() {
            lemma_more_destinations_shorten(rest);
        }
    }
}

/// Reads countries with their destinations one after another until none can be read.
/// Never fails: where the text begins with none, none is handed back.
pub fn parse_trips<'a>(input: &'a str) -> (r: Result<(&'a str, Vec<Destinations<'a>>), NoMatch>)
    ensures
        r matches Ok((x, v)) && x@ == trips_spec(input@).0 && trip_views(v@) == trips_spec(input@).1,
{
    let mut list: Vec<Destinations<'a>> = Vec::new();
    let mut rest = input;
    let ghost whole = trips_spec(input@);
    assert(trip_views(list@) + whole.1 == whole.1);
    loop
        invariant
            whole == trips_spec(input@),
            whole.0 == trips_spec(rest@).0,
            whole.1 == trip_views(list@) + trips_spec(rest@).1,
        decreases rest@.len(),
    {
        proof {
            lemma_destinations_consume(rest@);
        }
        match parse_destinations(rest) {
            Err(_) => {
                assert(trip_views(list@) + Seq::<DestinationsView>::empty() == trip_views(list@));
                return Ok((rest, list));
            },
            Ok((next, item)) => {
                let ghost before = trip_views(list@);
                let ghost more = trips_spec(next@).1;
                let ghost view = trip_views(seq![item])[0];
                list.push(item);
                assert(trip_views(list@) == before.push(view));
                assert(before + (seq![view] + more) == trip_views(list@) + more);
                rest = next;
            },
        }
    }
}

} // verus!
