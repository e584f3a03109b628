use winnowcurl::curl::error::CurlError;
use winnowcurl::curl::lexer::{join_lines, read_token, tokenize, Quoting, Token};
use winnowcurl::curl::options::{curl_options, Arity, Category, OptionSpec, OptionTable};
use winnowcurl::curl::parser::{
    assemble_elements, classify, curl_cmd_parse, find_target, is_option_token, make_element,
    parse_curl_command, parse_tokens, parse_with_options, Curl, CurlData, CurlFlag, CurlHeader,
    CurlMethod,
};
use winnowcurl::url::CurlUrl;

fn chars(s: &str) -> Vec<char> {
    s.chars().collect()
}

fn text(v: &[char]) -> String {
    v.iter().collect()
}

fn words(line: &str) -> Vec<String> {
    tokenize(&chars(line)).unwrap().iter().map(|t| text(&t.value)).collect()
}

fn url(raw: &str, scheme: Option<&str>, host: &str, path: &str, query: Option<&str>) -> Curl {
    Curl::URL(CurlUrl {
        raw: raw.to_string(),
        scheme: scheme.map(|s| s.to_string()),
        host: host.to_string(),
        path: path.to_string(),
        query: query.map(|s| s.to_string()),
    })
}

fn method(identifier: &str, data: &str) -> Curl {
    Curl::Method(CurlMethod { identifier: identifier.to_string(), data: Some(data.to_string()) })
}

fn header(identifier: &str, key: &str, value: &str) -> Curl {
    Curl::Header(CurlHeader {
        identifier: identifier.to_string(),
        key: key.to_string(),
        value: value.to_string(),
    })
}

fn data(identifier: &str, value: &str) -> Curl {
    Curl::Data(CurlData { identifier: identifier.to_string(), value: value.to_string() })
}

fn flag(identifier: &str, value: Option<&str>) -> Curl {
    Curl::Flag(CurlFlag { identifier: identifier.to_string(), value: value.map(|s| s.to_string()) })
}

fn plain_url(host: &str) -> Curl {
    url(host, None, host, host, None)
}

#[test]
fn join_lines_replaces_a_backslash_before_a_line_feed() {
    assert_eq!(text(&join_lines(&chars("a \\\nb"))), "a  b");
    assert_eq!(text(&join_lines(&chars("a\\\n\\\nb"))), "a  b");
    assert_eq!(text(&join_lines(&chars("a\nb"))), "a\nb");
    assert_eq!(text(&join_lines(&chars("a\\b\\"))), "a\\b\\");
    assert_eq!(text(&join_lines(&chars("a\\\r\nb"))), "a\\\r\nb");
    assert_eq!(text(&join_lines(&chars("\\\\\n"))), "\\ ");
    assert_eq!(text(&join_lines(&chars(""))), "");
}

#[test]
fn tokens_are_cut_at_separators_outside_quotes() {
    assert_eq!(words("curl  -X\tPOST\nhttp://a\r\n"), vec!["curl", "-X", "POST", "http://a"]);
    assert_eq!(words("   "), Vec::<String>::new());
    assert_eq!(words(""), Vec::<String>::new());
    assert_eq!(words("'a b'  \"c\td\""), vec!["a b", "c\td"]);
    assert_eq!(words("a\\ b"), vec!["a\\", "b"]);
}

#[test]
fn quoted_parts_join_what_stands_next_to_them() {
    assert_eq!(words(r#"--data-raw='{"a":1}'"#), vec![r#"--data-raw={"a":1}"#]);
    assert_eq!(words(r#"a'b c'"d e"f"#), vec!["ab cd ef"]);
    assert_eq!(words("''"), vec![""]);
    assert_eq!(words("a '' b"), vec!["a", "", "b"]);
    assert_eq!(words(r#"'it"s' "it's""#), vec!["it\"s", "it's"]);
}

#[test]
fn backslash_in_quotes_takes_the_next_character_as_it_is() {
    assert_eq!(words(r#"'data2:90/i9fi0sdfsdfk\\jfhaoe'"#), vec![r#"data2:90/i9fi0sdfsdfk\jfhaoe"#]);
    assert_eq!(words(r#"'a\'b' "c\"d" 'e\nf'"#), vec!["a'b", "c\"d", "enf"]);
    assert_eq!(words("'a\\ b'"), vec!["a b"]);
}

#[test]
fn tokens_know_how_and_where_they_were_written() {
    let tokens = tokenize(&chars("  ab 'c d'e \"f\"'g' h'i'\"j\"")).unwrap();
    assert_eq!(
        tokens,
        vec![
            Token { value: chars("ab"), quoting: Quoting::Unquoted, start: 2, end: 4 },
            Token { value: chars("c de"), quoting: Quoting::Single, start: 5, end: 11 },
            Token { value: chars("fg"), quoting: Quoting::Double, start: 12, end: 18 },
            Token { value: chars("hij"), quoting: Quoting::Single, start: 19, end: 26 },
        ]
    );
    assert_eq!(
        read_token(&chars("ab cd"), 3),
        Some(Token { value: chars("cd"), quoting: Quoting::Unquoted, start: 3, end: 5 })
    );
    assert_eq!(read_token(&chars("ab 'cd"), 3), None);
}

#[test]
fn open_quotation_is_an_error() {
    assert_eq!(tokenize(&chars("curl 'http://a")), Err(CurlError::UnterminatedQuote));
    assert_eq!(tokenize(&chars("curl \"http://a'")), Err(CurlError::UnterminatedQuote));
    assert_eq!(tokenize(&chars("curl 'a\\'")), Err(CurlError::UnterminatedQuote));
    assert_eq!(tokenize(&chars("curl 'a\\")), Err(CurlError::UnterminatedQuote));
    assert_eq!(tokenize(&chars("curl a'")), Err(CurlError::UnterminatedQuote));
    assert_eq!(tokenize(&chars("curl 'a\\\\'")).unwrap().len(), 2);
}

#[test]
fn each_error_has_its_message() {
    assert_eq!(CurlError::NotCurl.message(), "command does not start with curl");
    assert_eq!(CurlError::UnterminatedQuote.message(), "unterminated quote in command");
    assert_eq!(CurlError::MissingUrl.message(), "command is missing a URL");
    assert_eq!(CurlError::MissingValue.message(), "option is missing its value");
    assert_eq!(curl_cmd_parse("wget http://a").unwrap_err(), "command does not start with curl");
    assert_eq!(curl_cmd_parse("curl 'http://a").unwrap_err(), "unterminated quote in command");
    assert_eq!(curl_cmd_parse("curl -k").unwrap_err(), "command is missing a URL");
    assert_eq!(curl_cmd_parse("curl http://a -o").unwrap_err(), "option is missing its value");
}

#[test]
fn first_word_has_to_be_curl() {
    let table = curl_options();
    for input in ["", "   ", "Curl http://a", "/usr/bin/curl http://a", "curl.exe http://a", "-k curl http://a", "curlhttp://a"] {
        assert_eq!(parse_with_options(input, &table), Err(CurlError::NotCurl));
    }
    for input in ["curl http://a", "  \n curl http://a", "'curl' http://a", "\"cu\"'rl' http://a", "cu\\\nrl http://a"] {
        let parsed = parse_with_options(input, &table);
        assert_eq!(parsed.is_ok(), input != "cu\\\nrl http://a");
    }
    assert_eq!(parse_with_options("cu\\\nrl http://a", &table), Err(CurlError::NotCurl));
}

#[test]
fn errors_are_told_apart_by_kind() {
    assert_eq!(parse_curl_command("echo curl 'http://example.com'"), Err(CurlError::NotCurl));
    assert_eq!(parse_curl_command("curl \"http://example.com"), Err(CurlError::UnterminatedQuote));
    assert_eq!(parse_curl_command("curl -X=POST -v"), Err(CurlError::MissingUrl));
    assert_eq!(parse_curl_command("curl http://example.com --max-time"), Err(CurlError::MissingValue));
    assert_eq!(
        parse_curl_command("curl https://example.com -X POST"),
        Ok(vec![
            url("https://example.com", Some("https"), "example.com", "example.com", None),
            method("-X", "POST"),
        ])
    );
    for input in ["curl a -k", "curl", "wget a", "curl 'a", "curl a -d"] {
        assert_eq!(
            curl_cmd_parse(input),
            parse_curl_command(input).map_err(|e| e.message())
        );
        assert_eq!(parse_curl_command(input), parse_with_options(input, &curl_options()));
    }
}

#[test]
fn earlier_stage_reports_first() {
    let table = curl_options();
    assert_eq!(parse_with_options("echo 'a", &table), Err(CurlError::UnterminatedQuote));
    assert_eq!(parse_with_options("echo -o", &table), Err(CurlError::NotCurl));
    assert_eq!(parse_with_options("curl -o", &table), Err(CurlError::MissingUrl));
    assert_eq!(parse_with_options("curl", &table), Err(CurlError::MissingUrl));
    assert_eq!(parse_with_options("curl -o -k", &table), Err(CurlError::MissingUrl));
    assert_eq!(parse_with_options("curl a -H", &table), Err(CurlError::MissingValue));
}

#[test]
fn url_is_split_into_its_parts() {
    assert_eq!(
        CurlUrl::parse("https://example.com/a/b?x=1&y=2"),
        CurlUrl {
            raw: "https://example.com/a/b?x=1&y=2".to_string(),
            scheme: Some("https".to_string()),
            host: "example.com".to_string(),
            path: "a/b".to_string(),
            query: Some("x=1&y=2".to_string()),
        }
    );
    assert_eq!(
        Curl::URL(CurlUrl::parse("example.com")),
        url("example.com", None, "example.com", "example.com", None)
    );
    assert_eq!(
        Curl::URL(CurlUrl::parse("example.com/")),
        url("example.com/", None, "example.com", "", None)
    );
    assert_eq!(
        Curl::URL(CurlUrl::parse("http://example.com?x=1")),
        url("http://example.com?x=1", Some("http"), "example.com?x=1", "example.com", Some("x=1"))
    );
    assert_eq!(
        Curl::URL(CurlUrl::parse("example.com?r=/x?y")),
        url("example.com?r=/x?y", None, "example.com?r=", "x", Some("y"))
    );
    assert_eq!(
        Curl::URL(CurlUrl::parse("ftp://h:21/p?")),
        url("ftp://h:21/p?", Some("ftp"), "h:21", "p", Some(""))
    );
    assert_eq!(Curl::URL(CurlUrl::parse("://h/p")), url("://h/p", Some(""), "h", "p", None));
    assert_eq!(
        Curl::URL(CurlUrl::parse("a://b://c/d")),
        url("a://b://c/d", Some("a"), "b:", "/c/d", None)
    );
    assert_eq!(Curl::URL(CurlUrl::parse("a:/b")), url("a:/b", None, "a:", "b", None));
    assert_eq!(Curl::URL(CurlUrl::parse("")), url("", None, "", "", None));
    assert_eq!(
        Curl::URL(CurlUrl::from_chars(&chars("http://h/%C3%A9?\u{e9}"))),
        url("http://h/%C3%A9?\u{e9}", Some("http"), "h", "%C3%A9", Some("\u{e9}"))
    );
}

#[test]
fn option_table_names_what_is_known() {
    let table = curl_options();
    let names: Vec<(String, Category, Arity)> =
        table.entries.iter().map(|e| (text(&e.name), e.category, e.arity)).collect();
    let expected = vec![
        ("-X", Category::Method, Arity::Value),
        ("--request", Category::Method, Arity::Value),
        ("-H", Category::Header, Arity::Value),
        ("--header", Category::Header, Arity::Value),
        ("-d", Category::Data, Arity::Value),
        ("--data", Category::Data, Arity::Value),
        ("--data-raw", Category::Data, Arity::Value),
        ("--data-urlencode", Category::Data, Arity::Value),
        ("--data-binary", Category::Data, Arity::Value),
        ("-k", Category::Flag, Arity::Switch),
        ("-L", Category::Flag, Arity::Switch),
        ("-v", Category::Flag, Arity::Switch),
        ("--insecure", Category::Flag, Arity::Switch),
        ("--retry-all-errors", Category::Flag, Arity::Switch),
        ("-o", Category::Flag, Arity::Value),
        ("-x", Category::Flag, Arity::Value),
        ("--cert", Category::Flag, Arity::Value),
        ("--key", Category::Flag, Arity::Value),
        ("--cacert", Category::Flag, Arity::Value),
        ("--output", Category::Flag, Arity::Value),
        ("--max-time", Category::Flag, Arity::Value),
    ];
    assert_eq!(names.len(), expected.len());
    for (got, want) in names.iter().zip(expected.iter()) {
        assert_eq!((got.0.as_str(), got.1, got.2), *want);
    }
}

#[test]
fn lookup_finds_the_longest_name_that_fits() {
    let table = curl_options();
    assert_eq!(table.lookup(&chars("-X")), Some(0));
    assert_eq!(table.lookup(&chars("-XPOST")), Some(0));
    assert_eq!(table.lookup(&chars("-X=POST")), Some(0));
    assert_eq!(table.lookup(&chars("--request")), Some(1));
    assert_eq!(table.lookup(&chars("--request=PUT")), Some(1));
    assert_eq!(table.lookup(&chars("--requestPUT")), None);
    assert_eq!(table.lookup(&chars("--data")), Some(5));
    assert_eq!(table.lookup(&chars("--data=x")), Some(5));
    assert_eq!(table.lookup(&chars("--data-raw")), Some(6));
    assert_eq!(table.lookup(&chars("--data-raw=x")), Some(6));
    assert_eq!(table.lookup(&chars("--data-ra")), None);
    assert_eq!(table.lookup(&chars("--database")), None);
    assert_eq!(table.lookup(&chars("-k")), Some(9));
    assert_eq!(table.lookup(&chars("-kL")), None);
    assert_eq!(table.lookup(&chars("-k=1")), None);
    assert_eq!(table.lookup(&chars("--insecure=1")), None);
    assert_eq!(table.lookup(&chars("-x")), Some(15));
    assert_eq!(table.lookup(&chars("-X")), Some(0));
    assert_eq!(table.lookup(&chars("-s")), None);
    assert_eq!(table.lookup(&chars("X")), None);
    assert_eq!(table.lookup(&chars("")), None);

    let own = OptionTable {
        entries: vec![
            OptionSpec::new("-d", Category::Data, Arity::Value),
            OptionSpec::new("-da", Category::Flag, Arity::Switch),
            OptionSpec::new("-d=", Category::Flag, Arity::Value),
            OptionSpec::new("-da", Category::Flag, Arity::Value),
        ],
    };
    assert_eq!(own.lookup(&chars("-db")), Some(0));
    assert_eq!(own.lookup(&chars("-da")), Some(1));
    assert_eq!(own.lookup(&chars("-dab")), Some(0));
    assert_eq!(own.lookup(&chars("-da=b")), Some(3));
    assert_eq!(own.lookup(&chars("-d=b")), Some(0));
    assert_eq!(own.lookup(&chars("-d==b")), Some(2));
    assert!(own.entries[0].takes_value());
    assert!(!own.entries[1].takes_value());
    assert!(OptionSpec::new("-X", Category::Method, Arity::Switch).takes_value());
    assert!(own.entries[0].recognizes(&chars("-dx")));
    assert!(!own.entries[1].recognizes(&chars("-dax")));
}

#[test]
fn every_known_option_takes_its_value_from_each_place() {
    let cases = [
        ("-X", method("-X", "v")),
        ("--request", method("--request", "v")),
        ("-H", header("-H", "v", "")),
        ("--header", header("--header", "v", "")),
        ("-d", data("-d", "v")),
        ("--data", data("--data", "v")),
        ("--data-raw", data("--data-raw", "v")),
        ("--data-urlencode", data("--data-urlencode", "v")),
        ("--data-binary", data("--data-binary", "v")),
        ("-o", flag("-o", Some("v"))),
        ("-x", flag("-x", Some("v"))),
        ("--cert", flag("--cert", Some("v"))),
        ("--key", flag("--key", Some("v"))),
        ("--cacert", flag("--cacert", Some("v"))),
        ("--output", flag("--output", Some("v"))),
        ("--max-time", flag("--max-time", Some("v"))),
    ];
    for (name, element) in cases.iter() {
        let expected = Ok(vec![plain_url("h"), element.clone()]);
        assert_eq!(curl_cmd_parse(&format!("curl h {} v", name)), expected);
        assert_eq!(curl_cmd_parse(&format!("curl h {}=v", name)), expected);
        assert_eq!(curl_cmd_parse(&format!("curl h {}='v'", name)), expected);
        assert_eq!(curl_cmd_parse(&format!("curl h '{}' \"v\"", name)), expected);
        let joined = curl_cmd_parse(&format!("curl h {}v", name));
        if name.len() == 2 {
            assert_eq!(joined, expected);
        } else {
            assert_eq!(joined, Ok(vec![plain_url("h"), flag(&format!("{}v", name), None)]));
        }
        assert_eq!(
            curl_cmd_parse(&format!("curl h {}", name)),
            Err("option is missing its value".to_string())
        );
    }
}

#[test]
fn switches_never_have_a_value() {
    for name in ["-k", "-L", "-v", "--insecure", "--retry-all-errors"] {
        assert_eq!(
            curl_cmd_parse(&format!("curl h {} v", name)),
            Ok(vec![plain_url("h"), flag(name, None)])
        );
        assert_eq!(
            curl_cmd_parse(&format!("curl h {}", name)),
            Ok(vec![plain_url("h"), flag(name, None)])
        );
        assert_eq!(
            curl_cmd_parse(&format!("curl h {}=v", name)),
            Ok(vec![plain_url("h"), flag(&format!("{}=v", name), None)])
        );
        assert_eq!(
            curl_cmd_parse(&format!("curl h {}v", name)),
            Ok(vec![plain_url("h"), flag(&format!("{}v", name), None)])
        );
    }
}

#[test]
fn options_that_are_not_known_are_flags_under_their_whole_text() {
    assert_eq!(
        curl_cmd_parse("curl h --compressed -s -sS --foo=bar -u name:pw - -- -=x"),
        Ok(vec![
            plain_url("h"),
            flag("--compressed", None),
            flag("-s", None),
            flag("-sS", None),
            flag("--foo=bar", None),
            flag("-u", None),
            flag("-", None),
            flag("--", None),
            flag("-=x", None),
        ])
    );
}

#[test]
fn attached_value_is_kept_whole() {
    assert_eq!(
        curl_cmd_parse("curl h -dname=John -d=a=b --data==x --data-raw=a=b=c -d '-d=1' -o=-k"),
        Ok(vec![
            plain_url("h"),
            data("-d", "name=John"),
            data("-d", "a=b"),
            data("--data", "=x"),
            data("--data-raw", "a=b=c"),
            data("-d", "-d=1"),
            flag("-o", Some("-k")),
        ])
    );
    assert_eq!(
        curl_cmd_parse("curl h -d= --data= -X=''"),
        Ok(vec![plain_url("h"), data("-d", ""), data("--data", ""), method("-X", "")])
    );
    assert_eq!(
        curl_cmd_parse("curl h --data-binary @file.bin -d@x --data @'a b'"),
        Ok(vec![
            plain_url("h"),
            data("--data-binary", "@file.bin"),
            data("-d", "@x"),
            data("--data", "@a b"),
        ])
    );
}

#[test]
fn next_token_is_taken_whatever_it_holds() {
    assert_eq!(
        curl_cmd_parse("curl h -o -k -L"),
        Ok(vec![plain_url("h"), flag("-o", Some("-k")), flag("-L", None)])
    );
    assert_eq!(
        curl_cmd_parse("curl h -X -X -X"),
        Err("option is missing its value".to_string())
    );
    assert_eq!(
        curl_cmd_parse("curl h -X -X"),
        Ok(vec![plain_url("h"), method("-X", "-X")])
    );
    assert_eq!(curl_cmd_parse("curl h -d ''"), Ok(vec![plain_url("h"), data("-d", "")]));
}

#[test]
fn header_is_split_at_its_first_colon() {
    assert_eq!(
        curl_cmd_parse("curl h -H 'Accept: */*' -H'Host:a:80' --header='  X-A \t:  b c  ' -H 'X-Empty;' -H ': v' -H k:"),
        Ok(vec![
            plain_url("h"),
            header("-H", "Accept", "*/*"),
            header("-H", "Host", "a:80"),
            header("--header", "X-A", "b c"),
            header("-H", "X-Empty;", ""),
            header("-H", "", "v"),
            header("-H", "k", ""),
        ])
    );
    let entry = OptionSpec::new("--header", Category::Header, Arity::Value);
    assert_eq!(make_element(&entry, &chars("\r\n A \n:\t B\r")), header("--header", "A", "B"));
    assert_eq!(make_element(&entry, &chars("\u{a0}A\u{a0}:")), header("--header", "\u{a0}A\u{a0}", ""));
    assert_eq!(make_element(&entry, &chars("")), header("--header", "", ""));
}

#[test]
fn url_is_the_first_argument_without_a_dash() {
    assert_eq!(
        curl_cmd_parse("curl -k -L 'https://example.com/x?q=1' -v"),
        Ok(vec![
            flag("-k", None),
            flag("-L", None),
            url("https://example.com/x?q=1", Some("https"), "example.com", "x", Some("q=1")),
            flag("-v", None),
        ])
    );
    assert_eq!(
        curl_cmd_parse("curl -X POST http://a"),
        Ok(vec![method("-X", "http://a"), plain_url("POST")])
    );
    assert_eq!(
        curl_cmd_parse("curl -X http://a POST -k"),
        Ok(vec![method("-X", "POST"), url("http://a", Some("http"), "a", "a", None), flag("-k", None)])
    );
    assert_eq!(
        curl_cmd_parse("curl -k http://a"),
        Ok(vec![flag("-k", None), url("http://a", Some("http"), "a", "a", None)])
    );
    assert_eq!(
        curl_cmd_parse("curl -o http://a"),
        Err("option is missing its value".to_string())
    );
    assert_eq!(curl_cmd_parse("curl ''"), Ok(vec![plain_url("")]));
    assert_eq!(curl_cmd_parse("curl '-k'"), Err("command is missing a URL".to_string()));
    assert_eq!(curl_cmd_parse("curl curl"), Ok(vec![plain_url("curl")]));
}

#[test]
fn other_arguments_without_a_dash_denote_nothing() {
    assert_eq!(
        curl_cmd_parse("curl http://a http://b -k c -o d e"),
        Ok(vec![
            url("http://a", Some("http"), "a", "a", None),
            flag("-k", None),
            flag("-o", Some("d")),
        ])
    );
}

#[test]
fn exactly_one_url_is_among_the_elements() {
    for input in [
        "curl a",
        "curl a b c",
        "curl -k a -L b",
        "curl -o a b",
        "curl -H a:b c -d e",
        "curl 'http://x/y' -X POST --data-raw '{}' -v",
    ] {
        let elements = curl_cmd_parse(input).unwrap();
        let urls = elements.iter().filter(|c| matches!(c, Curl::URL(_))).count();
        assert_eq!(urls, 1);
        for element in elements.iter() {
            let identifier = match element {
                Curl::URL(_) => continue,
                Curl::Method(m) => &m.identifier,
                Curl::Header(h) => &h.identifier,
                Curl::Data(d) => &d.identifier,
                Curl::Flag(f) => &f.identifier,
            };
            assert!(identifier.starts_with('-'));
        }
    }
}

#[test]
fn quoting_does_not_show_in_the_elements() {
    let bare = curl_cmd_parse("curl http://a/b -X POST -H k:v -d x=1 -k");
    assert_eq!(bare, curl_cmd_parse("curl 'http://a/b' '-X' 'POST' '-H' 'k:v' '-d' 'x=1' '-k'"));
    assert_eq!(bare, curl_cmd_parse("curl \"http://a/b\" \"-X\" \"POST\" \"-H\" \"k:v\" \"-d\" \"x=1\" \"-k\""));
    assert_eq!(bare, curl_cmd_parse("\"curl\" h't'tp://a/b -\"X\" P'OS'T -H'k:v' '-d'x=1 -'k'"));
    assert_eq!(bare, curl_cmd_parse("curl \\\nhttp://a/b \\\n-X POST \\\n-H k:v -d x=1 \\\n-k"));
}

#[test]
fn own_table_is_used_in_place_of_the_known_options() {
    let table = OptionTable {
        entries: vec![
            OptionSpec::new("-u", Category::Flag, Arity::Value),
            OptionSpec::new("--json", Category::Data, Arity::Switch),
            OptionSpec::new("-I", Category::Method, Arity::Value),
        ],
    };
    assert_eq!(
        parse_with_options("curl h -u name:pw --json '{}' -X POST -Ihead -k", &table),
        Ok(vec![
            plain_url("h"),
            flag("-u", Some("name:pw")),
            data("--json", "{}"),
            flag("-X", None),
            method("-I", "head"),
            flag("-k", None),
        ])
    );
    assert_eq!(parse_with_options("curl h --json", &table), Err(CurlError::MissingValue));
    let none = OptionTable { entries: vec![] };
    assert_eq!(
        parse_with_options("curl -X POST --data=1", &none),
        Ok(vec![flag("-X", None), plain_url("POST"), flag("--data=1", None)])
    );
}

#[test]
fn stages_can_be_run_one_by_one() {
    let table = curl_options();
    let line = join_lines(&chars("curl -k \\\n a -o b c"));
    let mut tokens = tokenize(&line).unwrap();
    assert_eq!(parse_tokens(&table, tokens.clone()), parse_with_options("curl -k a -o b c", &table));
    tokens.remove(0);
    assert_eq!(find_target(&tokens), 1);
    assert!(is_option_token(&tokens[0].value));
    assert!(!is_option_token(&tokens[1].value));
    assert!(!is_option_token(&chars("")));
    let target = tokens.remove(1);
    assert_eq!(classify(&table, &tokens, 0), Some((Some(flag("-k", None)), 1)));
    assert_eq!(classify(&table, &tokens, 1), Some((Some(flag("-o", Some("b"))), 3)));
    assert_eq!(classify(&table, &tokens, 2), Some((None, 3)));
    assert_eq!(classify(&table, &tokens, 3), Some((None, 4)));
    tokens.push(Token { value: chars("-d"), quoting: Quoting::Unquoted, start: 0, end: 0 });
    assert_eq!(classify(&table, &tokens, 4), None);
    tokens.pop();
    assert_eq!(
        assemble_elements(&table, &tokens, 1, CurlUrl::from_chars(&target.value)),
        Some(vec![flag("-k", None), plain_url("a"), flag("-o", Some("b"))])
    );
    assert_eq!(
        assemble_elements(&table, &tokens, 4, CurlUrl::from_chars(&target.value)),
        Some(vec![flag("-k", None), flag("-o", Some("b")), plain_url("a")])
    );
    assert_eq!(find_target(&vec![]), 0);
}
