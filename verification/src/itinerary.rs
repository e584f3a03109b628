//! Itineraries: a country on a line of its own, and under it its destinations, such as
//! `    Oslo : 59.914289,10.738739 : 2`.
//!
//! The name of a country is letters only, the parts of a destination are held apart by
//! a colon between exactly two spaces, and the last part is a number of sales below
//! 65536. An itinerary has one trip at least. For a reading that is freer about blanks,
//! see [`crate::trip`].

use vstd::prelude::*;
use vstd::string::StringExecFns;
use crate::float::{double_spec, lemma_double_shortens, or_halt, take_double, Halt, Parsed};
use crate::scan::{
    after_tag,
    part_of,
    rest_from,
    skip_class,
    skip_run,
    take_class1,
    take_run1,
    take_tag,
    take_unsigned,
    take_until0,
    unsigned_decimal,
    until0,
};
use crate::text::{chars_of, lemma_run, CharClass};

verus! {

/// A place on the globe. Latitude and longitude are kept as the texts that write them.
#[derive(Debug, Clone, PartialEq, Eq)]
pub struct Coordinate {
    pub lat: String,
    pub lon: String,
}

/// A destination: its name, where it lies, and the sales made there.
#[derive(Debug, Clone, PartialEq, Eq)]
pub struct Destination {
    pub name: String,
    pub coord: Coordinate,
    pub sales: u16,
}

/// The destinations of one country.
#[derive(Debug, Clone, PartialEq, Eq)]
pub struct Trip {
    pub country: String,
    pub destination: Vec<Destination>,
}

/// The mathematical value of a [`Coordinate`].
pub struct CoordinateView {
    pub lat: Seq<char>,
    pub lon: Seq<char>,
}

/// The mathematical value of a [`Destination`].
pub struct DestinationView {
    pub name: Seq<char>,
    pub coord: CoordinateView,
    pub sales: u16,
}

/// The mathematical value of a [`Trip`].
pub struct TripView {
    pub country: Seq<char>,
    pub destination: Seq<DestinationView>,
}

impl View for Coordinate {
    type V = CoordinateView;

    open spec fn view(&self) -> CoordinateView {
        CoordinateView { lat: self.lat@, lon: self.lon@ }
    }
}

impl View for Destination {
    type V = DestinationView;

    open spec fn view(&self) -> DestinationView {
        DestinationView { name: self.name@, coord: self.coord@, sales: self.sales }
    }
}

/// The views of the destinations of `list`, in order.
pub open spec fn destination_views(list: Seq<Destination>) -> Seq<DestinationView> {
    list.map_values(|d: Destination| d@)
}

impl View for Trip {
    type V = TripView;

    open spec fn view(&self) -> TripView {
        TripView { country: self.country@, destination: destination_views(self.destination@) }
    }
}

/// The views of the trips of `list`, in order.
pub open spec fn trip_views(list: Seq<Trip>) -> Seq<TripView> {
    list.map_values(|t: Trip| t@)
}

/// The separator between the parts of a destination: a colon between two spaces.
pub open spec fn colon_mark() -> Seq<char> {
    seq![' ', ':', ' ']
}

/// The country that `s` begins with, and what follows its line: letters, one at least,
/// and a line feed.
pub open spec fn country_spec(s: Seq<char>) -> Option<(Seq<char>, Seq<char>)> {
    match take_run1(s, CharClass::Alpha) {
        None => None,
        Some((s1, name)) => match after_tag(s1, seq!['\n']) {
            None => None,
            Some(rest) => Some((rest, name)),
        },
    }
}

/// What `s` begins with that can be left out between two parts, and what follows it:
/// blanks, a colon and blanks. The three are handed back one by one.
pub open spec fn unwanted_spec(s: Seq<char>) -> Option<
    (Seq<char>, (Seq<char>, Seq<char>, Seq<char>)),
> {
    let s1 = skip_run(s, CharClass::Blank);
    match after_tag(s1, seq![':']) {
        None => None,
        Some(s2) => Some(
            (
                skip_run(s2, CharClass::Blank),
                (
                    s.take(s.len() - s1.len()),
                    seq![':'],
                    s2.take(s2.len() - skip_run(s2, CharClass::Blank).len()),
                ),
            ),
        ),
    }
}

/// The name of a destination that `s` begins with: what stands before the first colon
/// between two spaces.
pub open spec fn destination_name_spec(s: Seq<char>) -> Option<(Seq<char>, Seq<char>)> {
    take_until0(s, colon_mark())
}

/// The place that `s` begins with, and what follows it: two numbers with a comma
/// between them.
pub open spec fn lat_long_spec(s: Seq<char>) -> Parsed<CoordinateView> {
    match double_spec(s) {
        Parsed::NoMatch => Parsed::NoMatch,
        Parsed::Failure => Parsed::Failure,
        Parsed::Match(s1, lat) => match after_tag(s1, seq![',']) {
            None => Parsed::NoMatch,
            Some(s2) => match double_spec(s2) {
                Parsed::NoMatch => Parsed::NoMatch,
                Parsed::Failure => Parsed::Failure,
                Parsed::Match(rest, lon) => Parsed::Match(rest, CoordinateView { lat, lon }),
            },
        },
    }
}

/// The destination that `s` begins with, and what follows it: after blanks, one at
/// least, a name, a place and a number of sales below 65536, with a colon between two
/// spaces after name and place; then line feeds.
pub open spec fn destination_spec(s: Seq<char>) -> Parsed<DestinationView> {
    match take_run1(s, CharClass::Blank) {
        None => Parsed::NoMatch,
        Some((s1, _)) => match destination_name_spec(s1) {
            None => Parsed::NoMatch,
            Some((s2, name)) => match after_tag(s2, colon_mark()) {
                None => Parsed::NoMatch,
                Some(s3) => match lat_long_spec(s3) {
                    Parsed::NoMatch => Parsed::NoMatch,
                    Parsed::Failure => Parsed::Failure,
                    Parsed::Match(s4, coord) => match after_tag(s4, colon_mark()) {
                        None => Parsed::NoMatch,
                        Some(s5) => match unsigned_decimal(s5, u16::MAX as int) {
                            None => Parsed::NoMatch,
                            Some((s6, sales)) => Parsed::Match(
                                skip_run(s6, CharClass::LineFeed),
                                DestinationView { name, coord, sales: sales as u16 },
                            ),
                        },
                    },
                },
            },
        },
    }
}

/// The destinations that `s` begins with, after the first, as many as can be read, and
/// what follows them.
pub open spec fn more_destinations(s: Seq<char>) -> Parsed<Seq<DestinationView>>
    decreases s.len(),
{
    match destination_spec(s) {
        Parsed::NoMatch => Parsed::Match(s, Seq::empty()),
        Parsed::Failure => Parsed::Failure,
        Parsed::Match(rest, first) => if rest.len() < s.len() {
            match more_destinations(rest) {
                Parsed::Match(end, more) => Parsed::Match(end, seq![first] + more),
                Parsed::NoMatch => Parsed::NoMatch,
                Parsed::Failure => Parsed::Failure,
            }
        } else {
            Parsed::NoMatch
        },
    }
}

/// The trip that `s` begins with, and what follows it: a country and its destinations,
/// one at least.
pub open spec fn trip_spec(s: Seq<char>) -> Parsed<TripView> {
    match country_spec(s) {
        None => Parsed::NoMatch,
        Some((s1, country)) => match destination_spec(s1) {
            Parsed::NoMatch => Parsed::NoMatch,
            Parsed::Failure => Parsed::Failure,
            Parsed::Match(s2, first) => match more_destinations(s2) {
                Parsed::NoMatch => Parsed::NoMatch,
                Parsed::Failure => Parsed::Failure,
                Parsed::Match(rest, more) => Parsed::Match(
                    rest,
                    TripView { country, destination: seq![first] + more },
                ),
            },
        },
    }
}

/// The trips that `s` begins with, after the first, as many as can be read, and what
/// follows them.
pub open spec fn more_trips(s: Seq<char>) -> Parsed<Seq<TripView>>
    decreases s.len(),
{
    match trip_spec(s) {
        Parsed::NoMatch => Parsed::Match(s, Seq::empty()),
        Parsed::Failure => Parsed::Failure,
        Parsed::Match(rest, first) => if rest.len() < s.len() {
            match more_trips(rest) {
                Parsed::Match(end, more) => Parsed::Match(end, seq![first] + more),
                Parsed::NoMatch => Parsed::NoMatch,
                Parsed::Failure => Parsed::Failure,
            }
        } else {
            Parsed::NoMatch
        },
    }
}

/// The trips that `s` begins with, one at least, and what follows them.
pub open spec fn multi_trip_spec(s: Seq<char>) -> Parsed<Seq<TripView>> {
    match trip_spec(s) {
        Parsed::NoMatch => Parsed::NoMatch,
        Parsed::Failure => Parsed::Failure,
        Parsed::Match(rest, first) => match more_trips(rest) {
            Parsed::Match(end, more) => Parsed::Match(end, seq![first] + more),
            Parsed::NoMatch => Parsed::NoMatch,
            Parsed::Failure => Parsed::Failure,
        },
    }
}

/// Reads a country: letters and the line feed after them.
pub fn parse_country<'a>(input: &'a str) -> (r: Result<(&'a str, &'a str), Halt>)
    ensures
        match country_spec(input@) {
            Some((rest, name)) => r matches Ok((x, n)) && x@ == rest && n@ == name,
            None => r == Err::<(&str, &str), Halt>(Halt::NoMatch),
        },
{
    proof {
        reveal_strlit("\n");
        assert("\n"@ == seq!['\n']);
    }
    let (input, name) = or_halt(take_class1(input, CharClass::Alpha))?;
    let input = or_halt(take_tag(input, "\n"))?;
    Ok((input, name))
}

/// Reads blanks, one at least.
pub fn parse_space<'a>(input: &'a str) -> (r: Result<(&'a str, &'a str), Halt>)
    ensures
        match take_run1(input@, CharClass::Blank) {
            Some((rest, blanks)) => r matches Ok((x, b)) && x@ == rest && b@ == blanks,
            None => r == Err::<(&str, &str), Halt>(Halt::NoMatch),
        },
{
    or_halt(take_class1(input, CharClass::Blank))
}

/// Reads blanks, as many as there are.
pub fn parse_space0<'a>(input: &'a str) -> (r: Result<(&'a str, &'a str), Halt>)
    ensures
        r matches Ok((x, b)) && x@ == skip_run(input@, CharClass::Blank) && b@ == input@.take(
            input@.len() - x@.len(),
        ),
{
    let s = chars_of(input);
    assert(s@.skip(0) == s@);
    let end = crate::text::run_end(&s, 0, CharClass::Blank);
    Ok((rest_from(input, end), part_of(input, 0, end)))
}

/// Reads what stands between two parts: blanks, a colon and blanks.
pub fn parse_unwanted<'a>(input: &'a str) -> (r: Result<
    (&'a str, (&'a str, &'a str, &'a str)),
    Halt,
>)
    ensures
        match unwanted_spec(input@) {
            Some((rest, parts)) => r matches Ok((x, p)) && x@ == rest && p.0@ == parts.0 && p.1@
                == parts.1 && p.2@ == parts.2,
            None => r == Err::<(&str, (&str, &str, &str)), Halt>(Halt::NoMatch),
        },
{
    proof {
        reveal_strlit(":");
        assert(":"@ == seq![':']);
    }
    let (input, before) = parse_space0(input)?;
    let input = or_halt(take_tag(input, ":"))?;
    let (input, after) = parse_space0(input)?;
    Ok((input, (before, ":", after)))
}

/// Reads the name of a destination: what stands before the first ` : `.
pub fn parse_destination_name<'a>(input: &'a str) -> (r: Result<(&'a str, &'a str), Halt>)
    ensures
        match destination_name_spec(input@) {
            Some((rest, name)) => r matches Ok((x, n)) && x@ == rest && n@ == name,
            None => r == Err::<(&str, &str), Halt>(Halt::NoMatch),
        },
{
    let s = chars_of(input);
    assert(s@.skip(0) == s@);
    proof {
        reveal_strlit(" : ");
        assert(" : "@ == colon_mark());
    }
    match until0(&s, 0, " : ") {
        None => Err(Halt::NoMatch),
        Some(at) => Ok((rest_from(input, at), part_of(input, 0, at))),
    }
}

/// Reads a place: latitude, a comma and longitude, each handed back as text.
pub fn parse_lat_long<'a>(input: &'a str) -> (r: Result<(&'a str, Coordinate), Halt>)
    ensures
        match lat_long_spec(input@) {
            Parsed::Match(rest, coord) => r matches Ok((x, c)) && x@ == rest && c@ == coord,
            Parsed::NoMatch => r == Err::<(&str, Coordinate), Halt>(Halt::NoMatch),
            Parsed::Failure => r == Err::<(&str, Coordinate), Halt>(Halt::Failure),
        },
{
    proof {
        reveal_strlit(",");
        assert(","@ == seq![',']);
    }
    let (input, lat) = take_double(input)?;
    let input = or_halt(take_tag(input, ","))?;
    let (input, lon) = take_double(input)?;
    Ok((input, Coordinate { lat: String::from_str(lat), lon: String::from_str(lon) }))
}

/// Reads one destination, with the line feeds after it.
pub fn parse_destination<'a>(input: &'a str) -> (r: Result<(&'a str, Destination), Halt>)
    ensures
        match destination_spec(input@) {
            Parsed::Match(rest, destination) => r matches Ok((x, d)) && x@ == rest && d@
                == destination,
            Parsed::NoMatch => r == Err::<(&str, Destination), Halt>(Halt::NoMatch),
            Parsed::Failure => r == Err::<(&str, Destination), Halt>(Halt::Failure),
        },
{
    proof {
        reveal_strlit(" : ");
        assert(" : "@ == colon_mark());
    }
    let (input, _) = parse_space(input)?;
    let (input, name) = parse_destination_name(input)?;
    let input = or_halt(take_tag(input, " : "))?;
    let (input, coord) = parse_lat_long(input)?;
    let input = or_halt(take_tag(input, " : "))?;
    let (input, sales) = or_halt(take_unsigned(input, 65535))?;
    let input = skip_class(input, CharClass::LineFeed);
    Ok((input, Destination { name: String::from_str(name), coord, sales: sales as u16 }))
}

/// A destination that is read uses up one character at least.
pub proof fn lemma_destination_consumes(s: Seq<char>)
    ensures
        destination_spec(s) matches Parsed::Match(rest, _) ==> rest.len() < s.len(),
{
    if let Parsed::Match(rest, _) = destination_spec(s) {
        lemma_run(s, CharClass::Blank);
        let s1 = take_run1(s, CharClass::Blank).unwrap().0;
        crate::text::lemma_index_of_seq(s1, colon_mark(), 0);
        let s2 = destination_name_spec(s1).unwrap().0;
        let s3 = after_tag(s2, colon_mark()).unwrap();
        lemma_double_shortens(s3);
        let t = double_spec(s3)->Match_0;
        lemma_double_shortens(t.skip(1));
        let s4 = lat_long_spec(s3)->Match_0;
        let s5 = after_tag(s4, colon_mark()).unwrap();
        lemma_run(s5, CharClass::Digit);
        let s6 = unsigned_decimal(s5, u16::MAX as int).unwrap().0;
        lemma_run(s6, CharClass::LineFeed);
    }
}

/// Reads destinations one after another until none can be read.
fn parse_more_destinations<'a>(input: &'a str, first: Destination) -> (r: Result<
    (&'a str, Vec<Destination>),
    Halt,
>)
    ensures
        match more_destinations(input@) {
            Parsed::Match(rest, more) => r matches Ok((x, ds)) && x@ == rest && destination_views(
                ds@,
            ) == seq![first@] + more,
            Parsed::NoMatch => r == Err::<(&str, Vec<Destination>), Halt>(Halt::NoMatch),
            Parsed::Failure => r == Err::<(&str, Vec<Destination>), Halt>(Halt::Failure),
        },
{
    let ghost head = first@;
    let mut list: Vec<Destination> = Vec::new();
    list.push(first);
    let mut rest = input;
    assert(destination_views(list@) == seq![head]);
    loop
        invariant
            head == first@,
            match more_destinations(rest@) {
                Parsed::Match(end, more) => more_destinations(input@) == Parsed::Match(
                    end,
                    destination_views(list@).skip(1) + more,
                ),
                Parsed::NoMatch => more_destinations(input@) is NoMatch,
                Parsed::Failure => more_destinations(input@) is Failure,
            },
            destination_views(list@).len() >= 1,
            destination_views(list@)[0] == head,
        decreases rest@.len(),
    {
        proof {
            lemma_destination_consumes(rest@);
        }
        let ghost before = destination_views(list@);
        match parse_destination(rest) {
            Err(Halt::NoMatch) => {
                assert(before.skip(1) + Seq::<DestinationView>::empty() == before.skip(1));
                assert(seq![head] + before.skip(1) == before);
                return Ok((rest, list));
            },
            Err(Halt::Failure) => {
                return Err(Halt::Failure);
            },
            Ok((next, destination)) => {
                let ghost view = destination@;
                list.push(destination);
                assert(destination_views(list@) == before.push(view));
                assert forall|more: Seq<DestinationView>|
                    before.skip(1) + (seq![view] + more) == #[trigger] (destination_views(
                        list@,
                    ).skip(1) + more) by {
                    assert(before.push(view).skip(1) == before.skip(1).push(view));
                }
                rest = next;
            },
        }
    }
}

/// Reads one trip: a country and its destinations, one at least.
pub fn parse_trip<'a>(input: &'a str) -> (r: Result<(&'a str, Trip), Halt>)
    ensures
        match trip_spec(input@) {
            Parsed::Match(rest, trip) => r matches Ok((x, t)) && x@ == rest && t@ == trip,
            Parsed::NoMatch => r == Err::<(&str, Trip), Halt>(Halt::NoMatch),
            Parsed::Failure => r == Err::<(&str, Trip), Halt>(Halt::Failure),
        },
{
    let (input, country) = parse_country(input)?;
    let (input, first) = parse_destination(input)?;
    let (input, destination) = parse_more_destinations(input, first)?;
    Ok((input, Trip { country: String::from_str(country), destination }))
}

/// A trip that is read uses up one character at least.
pub proof fn lemma_trip_consumes(s: Seq<char>)
    ensures
        trip_spec(s) matches Parsed::Match(rest, _) ==> rest.len() < s.len(),
{
    if let Parsed::Match(rest, _) = trip_spec(s) {
        lemma_run(s, CharClass::Alpha);
        let s1 = country_spec(s).unwrap().0;
        lemma_destination_consumes(s1);
        let s2 = destination_spec(s1)->Match_0;
        lemma_more_destinations_shorten(s2);
    }
}

/// Further destinations that are read leave no more text than they were read from.
pub proof fn lemma_more_destinations_shorten(s: Seq<char>)
    ensures
        more_destinations(s) matches Parsed::Match(rest, _) ==> rest.len() <= s.len(),
    decreases s.len(),
{
    if let Parsed::Match(rest, _) = destination_spec(s) {
        if rest.len() < s.len() {
            lemma_more_destinations_shorten(rest);
        }
    }
}

/// Reads trips one after another, one at least, until none can be read.
///
/// Fails with [`Halt::NoMatch`] when not even one can be read, and with
/// [`Halt::Failure`] when a number of one of them breaks off.
pub fn parse_multi_trip<'a>(input: &'a str) -> (r: Result<(&'a str, Vec<Trip>), Halt>)
    ensures
        match multi_trip_spec(input@) {
            Parsed::Match(rest, list) => r matches Ok((x, ts)) && x@ == rest && trip_views(ts@)
                == list,
            Parsed::NoMatch => r == Err::<(&str, Vec<Trip>), Halt>(Halt::NoMatch),
            Parsed::Failure => r == Err::<(&str, Vec<Trip>), Halt>(Halt::Failure),
        },
{
    let (after_first, first) = parse_trip(input)?;
    let ghost head = first@;
    let mut list: Vec<Trip> = Vec::new();
    list.push(first);
    let mut rest = after_first;
    assert(trip_views(list@) == seq![head]);
    loop
        invariant
            trip_spec(input@) == Parsed::Match(after_first@, head),
            match more_trips(rest@) {
                Parsed::Match(end, more) => more_trips(after_first@) == Parsed::Match(
                    end,
                    trip_views(list@).skip(1) + more,
                ),
                Parsed::NoMatch => more_trips(after_first@) is NoMatch,
                Parsed::Failure => more_trips(after_first@) is Failure,
            },
            trip_views(list@).len() >= 1,
            trip_views(list@)[0] == head,
        decreases rest@.len(),
    {
        proof {
            lemma_trip_consumes(rest@);
        }
        let ghost before = trip_views(list@);
        match parse_trip(rest) {
            Err(Halt::NoMatch) => {
                assert(before.skip(1) + Seq::<TripView>::empty() == before.skip(1));
                assert(seq![head] + before.skip(1) == before);
                return Ok((rest, list));
            },
            Err(Halt::Failure) => {
                return Err(Halt::Failure);
            },
            Ok((next, trip)) => {
                let ghost view = trip@;
                list.push(trip);
                assert(trip_views(list@) == before.push(view));
                assert forall|more: Seq<TripView>|
                    before.skip(1) + (seq![view] + more) == #[trigger] (trip_views(list@).skip(1)
                        + more) by {
                    assert(before.push(view).skip(1) == before.skip(1).push(view));
                }
                rest = next;
            },
        }
    }
}

} // verus!
