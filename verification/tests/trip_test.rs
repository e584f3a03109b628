use winnowcurl::scan::NoMatch;
use winnowcurl::trip::{
    parse_city_name, parse_coordinate, parse_country_name, parse_destination, parse_destinations,
    parse_float, parse_tickets, parse_trips, Coordinate, Destination, Destinations,
};

fn lat_lon(c: &Coordinate) -> (f64, f64) {
    (c.lat.parse::<f64>().unwrap(), c.lon.parse::<f64>().unwrap())
}

fn place(name: &str, lat: &str, lon: &str, tickets: u32) -> Destination {
    Destination {
        name: name.to_string(),
        coordinate: Coordinate { lat: lat.to_string(), lon: lon.to_string() },
        tickets,
    }
}

#[test]
fn test_parse_country_name() {
    let input = "Russia\n";
    let country_name = parse_country_name(input);
    assert_eq!(country_name, Ok(("", "Russia")))
}

#[test]
fn test_parse_coordinate() {
    let input = "59.914289,10.738739";
    let (rest, coordinate) = parse_coordinate(input).unwrap();
    assert_eq!(rest, "");
    assert_eq!(lat_lon(&coordinate), (59.914289, 10.738739));
}

#[test]
fn test_parse_destination() {
    let input = " Oslo : 59.914289,10.738739 : 2";
    let (rest, destination) = parse_destination(input).unwrap();
    assert_eq!(rest, "");
    assert_eq!(destination.name, "Oslo".to_string());
    assert_eq!(lat_lon(&destination.coordinate), (59.914289, 10.738739));
    assert_eq!(destination.tickets, 2);
}

#[test]
fn test_parse_destinations() {
    let input = r#"Norway
    Oslo : 59.914289,10.738739 : 2
    Bergen : 60.388533,5.331856 : 4"#;

    let (rest, trips) = parse_trips(input).unwrap();
    assert_eq!(rest, "");
    let trip = Destinations {
        country: "Norway",
        destinations: vec![
            place("Oslo", "59.914289", "10.738739", 2),
            place("Bergen", "60.388533", "5.331856", 4),
        ],
    };
    assert_eq!(trips, vec![trip]);
    assert_eq!(lat_lon(&trips[0].destinations[0].coordinate), (59.914289, 10.738739));
    assert_eq!(lat_lon(&trips[0].destinations[1].coordinate), (60.388533, 5.331856));
}

#[test]
fn test_parse_itinerary() {
    let input = r#"Russia
    Vladivostok : 43.131621,131.923828 : 4
    Ulan Ude : 51.841624,107.608101 : 2
Norway
    Oslo : 59.914289,10.738739 : 2
    Bergen : 60.388533,5.331856 : 4"#;

    let (rest, trips) = parse_trips(input).unwrap();
    println!("{:#?}", trips);
    assert_eq!(rest, "");
    assert_eq!(trips.len(), 2);
    assert_eq!(trips[0].country, "Russia");
    assert_eq!(trips[0].destinations[1], place("Ulan Ude", "51.841624", "107.608101", 2));
    assert_eq!(trips[1].country, "Norway");
    assert_eq!(trips[1].destinations.len(), 2);
}

#[test]
fn trips_may_be_none() {
    assert_eq!(parse_trips("nothing here"), Ok(("nothing here", vec![])));
    assert_eq!(parse_trips(""), Ok(("", vec![])));
    let (rest, trips) = parse_trips("A\n b: 1,2 :3\nB\nC\n d : 1,2 : 3").unwrap();
    assert_eq!(rest, "B\nC\n d : 1,2 : 3");
    assert_eq!(trips.len(), 1);
    assert!(parse_destinations("A\n").is_err());
    assert!(parse_destinations("A B\n b: 1,2 :3").is_err());
}

#[test]
fn numbers_are_read_with_their_sign_and_exponent() {
    assert_eq!(parse_float("-1.5e-3,"), Ok((",", "-1.5e-3")));
    assert_eq!(parse_float("+.5"), Ok(("", "+.5")));
    assert_eq!(parse_float("7.x"), Ok(("x", "7.")));
    assert_eq!(parse_float("NaN"), Ok(("", "NaN")));
    assert_eq!(parse_float("-Infinity!"), Ok(("!", "-Infinity")));
    assert_eq!(parse_float("infinit"), Ok(("init", "inf")));
    assert_eq!(parse_float("1e"), Err(NoMatch));
    assert_eq!(parse_float("1e+"), Err(NoMatch));
    assert_eq!(parse_float("-nan"), Err(NoMatch));
    assert_eq!(parse_float("na"), Err(NoMatch));
    assert_eq!(parse_float("."), Err(NoMatch));
    assert_eq!(parse_float(""), Err(NoMatch));
    assert_eq!("-Infinity".parse::<f64>().unwrap(), f64::NEG_INFINITY);
    assert_eq!("7.".parse::<f64>().unwrap(), 7.0);
    assert_eq!("+.5".parse::<f64>().unwrap(), 0.5);
}

#[test]
fn tickets_are_below_4294967296() {
    assert_eq!(parse_tickets(" \t4294967295\n"), Ok(("\n", 4294967295)));
    assert_eq!(parse_tickets("4294967296"), Err(NoMatch));
    assert_eq!(parse_tickets("007"), Ok(("", 7)));
    assert_eq!(parse_tickets(" x"), Err(NoMatch));
    assert_eq!(parse_tickets("\n1"), Err(NoMatch));
}

#[test]
fn city_name_is_trimmed() {
    assert_eq!(parse_city_name("  Ulan Ude  : 1"), Ok((": 1", "Ulan Ude")));
    assert_eq!(parse_city_name(" \n x\n:"), Ok((":", "x")));
    assert_eq!(parse_city_name("Oslo :"), Err(NoMatch));
    assert_eq!(parse_city_name(" \n: 1"), Ok((": 1", "")));
    assert_eq!(parse_city_name(" : 1"), Err(NoMatch));
    assert_eq!(parse_city_name(" Oslo"), Err(NoMatch));
}

#[test]
fn destination_takes_one_line_feed() {
    assert!(parse_destination("\tBern:46.949076 , 7.448151:1\n\nrest").is_err());
    let (rest, destination) = parse_destination("\tBern:46.949076,7.448151:1\n\nrest").unwrap();
    assert_eq!(rest, "\nrest");
    assert_eq!(destination, place("Bern", "46.949076", "7.448151", 1));
    let (rest, destination) = parse_destination(" a \t: \t 1,2\t:\t 3x").unwrap();
    assert_eq!(rest, "x");
    assert_eq!(destination, place("a", "1", "2", 3));
}
