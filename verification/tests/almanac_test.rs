use winnowcurl::almanac::{
    parse_key, parse_keyval, parse_keyvals, parse_observation, parse_observations,
    parse_temperature, parse_value, parse_weather, KeyVal, Observation,
};
use winnowcurl::float::Halt;

fn values(texts: &[String]) -> Vec<f64> {
    texts.iter().map(|t| t.parse::<f64>().unwrap()).collect()
}

fn fact(key: &str, value: &str) -> KeyVal {
    KeyVal { key: key.into(), value: value.into() }
}

#[test]
fn test_keyval() {
    let input = "    Name= Jan Mayen";
    assert_eq!(parse_keyval(input), Ok(("", KeyVal {
        key: "Name".into(),
        value: "Jan Mayen".into(),
    })));
}

#[test]
fn test_temperature() {
    let input = " -4.4 -7.1 -6.8 -4.3 -0.8  2.2  4.7  5.8  2.7 -2.0 -2.1 -4.0";
    let (rest, temperatures) = parse_temperature(input).unwrap();
    assert_eq!(rest, "");
    assert_eq!(values(&temperatures), vec![
        -4.4, -7.1, -6.8, -4.3, -0.8,  2.2,  4.7,  5.8,  2.7, -2.0, -2.1, -4.0
    ]);
}

#[test]
fn test_observation() {
    let input = "    1921 -4.4 -7.1 -6.8 -4.3 -0.8  2.2  4.7  5.8  2.7 -2.0 -2.1 -4.0";
    let (rest, observation) = parse_observation(input).unwrap();
    assert_eq!(rest, "");
    assert_eq!(format!("{}", observation.year), "1921");
    assert_eq!(values(&observation.temperatures), vec![-4.4, -7.1, -6.8, -4.3, -0.8,  2.2,  4.7,  5.8,  2.7, -2.0, -2.1, -4.0]);
}

#[test]
fn test_keyvals() {
    let input = r#"
    Name= Jan Mayen
    Country= NORWAY
    Lat=   70.9
    Long=    8.7
    Height= 10
    Start year= 1921
    End year= 2009"#;

    assert_eq!(parse_keyvals(input), Ok(("", vec![
        KeyVal {key: "Name".into(), value: "Jan Mayen".into() },
        KeyVal {key: "Country".into(), value: "NORWAY".into() },
        KeyVal {key: "Lat".into(), value: "70.9".into() },
        KeyVal {key: "Long".into(), value: "8.7".into() },
        KeyVal {key: "Height".into(), value: "10".into() },
        KeyVal {key: "Start year".into(), value: "1921".into() },
        KeyVal {key: "End year".into(), value: "2009".into() },
    ])));
}

#[test]
fn test_observations() {
    let input = r#"
    Obs:
    1921 -4.4 -7.1 -6.8 -4.3 -0.8  2.2  4.7  5.8  2.7 -2.0 -2.1 -4.0
    1922 -0.9 -1.7 -6.2 -3.7 -1.6  2.9  4.8  6.3  2.7 -0.2 -3.8 -2.6
    2008 -2.8 -2.7 -4.6 -1.8  1.1  3.3  6.1  6.9  5.8  1.2 -3.5 -0.8
    2009 -2.3 -5.3 -3.2 -1.6  2.0  2.9  6.7  7.2  3.8  0.6 -0.3 -1.3"#;

    let (rest, observations) = parse_observations(input).unwrap();
    assert_eq!(rest, "");
    let read: Vec<(String, Vec<f64>)> = observations
        .iter()
        .map(|o| (format!("{}", o.year), values(&o.temperatures)))
        .collect();
    assert_eq!(read, vec![
        ("1921".to_string(), vec![-4.4, -7.1, -6.8, -4.3, -0.8,  2.2,  4.7,  5.8,  2.7, -2.0, -2.1, -4.0]),
        ("1922".to_string(), vec![-0.9, -1.7, -6.2, -3.7, -1.6,  2.9,  4.8,  6.3,  2.7, -0.2, -3.8, -2.6]),
        ("2008".to_string(), vec![-2.8, -2.7, -4.6, -1.8,  1.1,  3.3,  6.1,  6.9,  5.8,  1.2, -3.5, -0.8]),
        ("2009".to_string(), vec![-2.3, -5.3, -3.2, -1.6,  2.0,  2.9,  6.7,  7.2,  3.8,  0.6, -0.3, -1.3]),
    ]);
}

#[test]
fn whole_record_is_read() {
    let input = r#"
    Name= Jan Mayen
    Country= NORWAY
    Lat=   70.9
    Long=    8.7
    Height= 10
    Start year= 1921
    End year= 2009
    Obs:
    1921 -4.4 -7.1 -6.8 -4.3 -0.8  2.2  4.7  5.8  2.7 -2.0 -2.1 -4.0
    1922 -0.9 -1.7 -6.2 -3.7 -1.6  2.9  4.8  6.3  2.7 -0.2 -3.8 -2.6
    2008 -2.8 -2.7 -4.6 -1.8  1.1  3.3  6.1  6.9  5.8  1.2 -3.5 -0.8
    2009 -2.3 -5.3 -3.2 -1.6  2.0  2.9  6.7  7.2  3.8  0.6 -0.3 -1.3"#;
    let (rest, (facts, observations)) = parse_weather(input).unwrap();
    assert_eq!(rest, "");
    assert_eq!(facts.len(), 7);
    assert_eq!(facts[6], fact("End year", "2009"));
    assert_eq!(observations.len(), 4);
    assert_eq!(observations[3].year, 2009);
    assert_eq!(observations[3].temperatures[11], "-1.3");
}

#[test]
fn keys_and_values_end_at_their_marks() {
    assert_eq!(parse_key("a b=c"), Ok(("=c", "a b".to_string())));
    assert_eq!(parse_key("a\nb"), Ok(("", "a\nb".to_string())));
    assert_eq!(parse_key("=c"), Err(Halt::NoMatch));
    assert_eq!(parse_key(""), Err(Halt::NoMatch));
    assert_eq!(parse_value("a=b \nc"), Ok(("\nc", "a=b ".to_string())));
    assert_eq!(parse_value("\nc"), Err(Halt::NoMatch));
}

#[test]
fn facts_keep_the_blanks_inside_them() {
    assert_eq!(parse_keyval("\n\n\tLat =\t 70.9 \n\nrest"), Ok(("rest", fact("Lat ", "70.9 "))));
    assert_eq!(parse_keyval("Lat= 70.9"), Err(Halt::NoMatch));
    assert_eq!(parse_keyval(" Lat 70.9"), Err(Halt::NoMatch));
    assert_eq!(parse_keyval(" Lat=   \n"), Err(Halt::NoMatch));
    assert_eq!(parse_keyvals("Lat= 70.9"), Err(Halt::NoMatch));
}

#[test]
fn facts_end_where_the_observations_begin() {
    let (rest, facts) = parse_keyvals(" a= 1\n b= 2\n Obs:\n 1 2\n").unwrap();
    assert_eq!(rest, " Obs:\n 1 2\n");
    assert_eq!(facts, vec![fact("a", "1"), fact("b", "2")]);
}

#[test]
fn temperatures_that_break_off_fail_for_good() {
    assert_eq!(parse_temperature(" 1.5 2e").unwrap_err(), Halt::Failure);
    assert_eq!(parse_temperature(" 1e").unwrap_err(), Halt::Failure);
    assert_eq!(parse_temperature("1.5").unwrap_err(), Halt::NoMatch);
    assert_eq!(parse_temperature(" x").unwrap_err(), Halt::NoMatch);
    assert_eq!(parse_temperature(" 1.5 x"), Ok((" x", vec!["1.5".to_string()])));
    assert_eq!(parse_temperature(" 1.5\t.5 nan inf"), Ok(("", vec!["1.5".to_string(), ".5".to_string(), "nan".to_string(), "inf".to_string()])));
    assert_eq!(parse_observation(" 1921 1 2e").unwrap_err(), Halt::Failure);
    assert_eq!(parse_observations(" Obs:\n 1921 1 2\n 1922 3e").unwrap_err(), Halt::Failure);
    assert_eq!(parse_weather(" a= 1\n Obs:\n 1921 1 2E+").unwrap_err(), Halt::Failure);
}

#[test]
fn years_are_below_65536() {
    assert_eq!(parse_observation("\n 0192 1\n\n"), Ok(("", Observation { year: 192, temperatures: vec!["1".to_string()] })));
    assert_eq!(parse_observation(" 65536 1").unwrap_err(), Halt::NoMatch);
    assert_eq!(parse_observation(" 1921").unwrap_err(), Halt::NoMatch);
    assert_eq!(parse_observation("1921 1").unwrap_err(), Halt::NoMatch);
}

#[test]
fn observations_need_their_heading() {
    assert_eq!(parse_observations(" 1921 1 2").unwrap_err(), Halt::NoMatch);
    assert_eq!(parse_observations(" Obs:\n").unwrap_err(), Halt::NoMatch);
    assert_eq!(parse_observations(" Obs 1:\n 1921 1").unwrap_err(), Halt::NoMatch);
    let (rest, observations) = parse_observations("\n\tTemp:\n\n 1921 1\n 1922 2\nrest").unwrap();
    assert_eq!(rest, "rest");
    assert_eq!(observations.len(), 2);
    assert_eq!(parse_weather(" Obs:\n 1921 1").unwrap_err(), Halt::NoMatch);
}
