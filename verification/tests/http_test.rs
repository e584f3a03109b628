use winnowcurl::http::{parse_body, parse_header, parse_headers, parse_http_request, parse_request_line};

#[test]
fn test_parse_http_request() {
    let request = "GET /greeting HTTP/1.1\r\n\
                      Host: localhost:3000\r\n\
                      User-agent: Curl/7.64.1\r\n\
                      Accept: */*\r\n\
                      \r\n\
                      xxxxxxxxxx";

    let (_, result) = parse_http_request(request).unwrap();

    assert_eq!(result.request_line.method, "GET");
    assert_eq!(result.request_line.path, "/greeting");
    assert_eq!(result.request_line.version, "HTTP/1.1");

    assert_eq!(result.headers.len(), 3);
    assert_eq!(result.headers[0].key, "Host");
    assert_eq!(result.headers[0].value, "localhost:3000");

    assert_eq!(result.body, Some("xxxxxxxxxx"));
}

#[test]
fn request_line_stops_before_the_line_break() {
    let (rest, line) = parse_request_line("POST \t/a/b  HTTP/2\r\nrest").unwrap();
    assert_eq!(line.method, "POST");
    assert_eq!(line.path, "/a/b");
    assert_eq!(line.version, "HTTP/2");
    assert_eq!(rest, "\r\nrest");
}

#[test]
fn request_line_needs_all_three_parts() {
    assert!(parse_request_line("GET /greeting HTTP/1.1").is_err());
    assert!(parse_request_line("GET /greeting\r\n").is_err());
    assert!(parse_request_line("1GET / HTTP/1.1\r\n").is_err());
    assert!(parse_request_line("GET/ HTTP/1.1\r\n").is_err());
    assert!(parse_http_request("").is_err());
}

#[test]
fn header_is_trimmed_on_both_sides() {
    let (rest, header) = parse_header("\r\n  Accept :  */* \r\nnext").unwrap();
    assert_eq!(header.key, "Accept");
    assert_eq!(header.value, "*/*");
    assert_eq!(rest, "\r\nnext");
}

#[test]
fn header_needs_a_key_and_a_whole_line_break() {
    assert!(parse_header(": value").is_err());
    assert!(parse_header("no colon here").is_err());
    assert!(parse_header("key: value\rmore").is_err());
}

#[test]
fn headers_end_where_no_colon_follows() {
    let (rest, headers) = parse_headers("a: 1\nb: 2\n\nbody").unwrap();
    assert_eq!(headers.len(), 2);
    assert_eq!(headers[1].key, "b");
    assert_eq!(headers[1].value, "2");
    assert_eq!(rest, "\n\nbody");
    let (rest, headers) = parse_headers("nothing").unwrap();
    assert_eq!(headers.len(), 0);
    assert_eq!(rest, "nothing");
}

#[test]
fn body_is_optional() {
    assert_eq!(parse_body("\r\n\r\n hello \r\n"), Ok(("\r\n", Some("hello"))));
    assert_eq!(parse_body("hello"), Ok(("hello", None)));
    assert_eq!(parse_body(" \ra"), Ok(("", Some("a"))));
    assert_eq!(parse_body(" a\rb"), Ok((" a\rb", None)));
    assert_eq!(parse_body(""), Ok(("", None)));
}
