//! HTTP requests as they are written on the wire: a request line, header lines and a
//! body.

use vstd::prelude::*;
use crate::scan::{
    line_end,
    part_of,
    rest_from,
    skip_run,
    take_run1,
    take_until1,
    till_line_ending,
    until1,
    NoMatch,
};
use crate::text::{chars_of, index_of, run, run_end, trim, trim_bounds, CharClass};

verus! {

/// A request: its first line, its headers and its body.
#[derive(Debug, PartialEq)]
pub struct HttpRequest<'a> {
    pub request_line: RequestLine<'a>,
    pub headers: Vec<Header<'a>>,
    pub body: Option<&'a str>,
}

/// The first line of a request.
#[derive(Debug, PartialEq)]
pub struct RequestLine<'a> {
    pub method: &'a str,
    pub path: &'a str,
    pub version: &'a str,
}

/// One header line.
#[derive(Debug, PartialEq)]
pub struct Header<'a> {
    pub key: &'a str,
    pub value: &'a str,
}

/// The mathematical value of a [`RequestLine`].
pub struct RequestLineView {
    pub method: Seq<char>,
    pub path: Seq<char>,
    pub version: Seq<char>,
}

/// The mathematical value of a [`Header`].
pub struct HeaderView {
    pub key: Seq<char>,
    pub value: Seq<char>,
}

/// The mathematical value of an [`HttpRequest`].
pub struct HttpRequestView {
    pub request_line: RequestLineView,
    pub headers: Seq<HeaderView>,
    pub body: Option<Seq<char>>,
}

impl<'a> View for RequestLine<'a> {
    type V = RequestLineView;

    open spec fn view(&self) -> RequestLineView {
        RequestLineView { method: self.method@, path: self.path@, version: self.version@ }
    }
}

impl<'a> View for Header<'a> {
    type V = HeaderView;

    open spec fn view(&self) -> HeaderView {
        HeaderView { key: self.key@, value: self.value@ }
    }
}

/// The views of the headers of `headers`, in order.
pub open spec fn header_views<'a>(headers: Seq<Header<'a>>) -> Seq<HeaderView> {
    headers.map_values(|h: Header<'a>| h@)
}

impl<'a> View for HttpRequest<'a> {
    type V = HttpRequestView;

    open spec fn view(&self) -> HttpRequestView {
        HttpRequestView {
            request_line: self.request_line@,
            headers: header_views(self.headers@),
            body: match self.body {
                Some(b) => Some(b@),
                None => None,
            },
        }
    }
}

/// The method that `s` begins with: its leading letters, one at least.
pub open spec fn method_spec(s: Seq<char>) -> Option<(Seq<char>, Seq<char>)> {
    take_run1(s, CharClass::Alpha)
}

/// The path that `s` begins with: after blanks, one at least, what stands before the
/// next space, one character at least.
pub open spec fn path_spec(s: Seq<char>) -> Option<(Seq<char>, Seq<char>)> {
    match take_run1(s, CharClass::Blank) {
        None => None,
        Some((rest, _)) => take_until1(rest, seq![' ']),
    }
}

/// The version that `s` begins with: after blanks, one at least, what stands before the
/// next carriage return with a line feed, one character at least.
pub open spec fn version_spec(s: Seq<char>) -> Option<(Seq<char>, Seq<char>)> {
    match take_run1(s, CharClass::Blank) {
        None => None,
        Some((rest, _)) => take_until1(rest, seq!['\r', '\n']),
    }
}

/// The request line that `s` begins with: a method, a path and a version.
pub open spec fn request_line_spec(s: Seq<char>) -> Option<(Seq<char>, RequestLineView)> {
    match method_spec(s) {
        None => None,
        Some((s1, method)) => match path_spec(s1) {
            None => None,
            Some((s2, path)) => match version_spec(s2) {
                None => None,
                Some((rest, version)) => Some((rest, RequestLineView { method, path, version })),
            },
        },
    }
}

/// The header that `s` begins with.
///
/// After blanks, what stands before the next colon, one character at least, is the key;
/// after the colon and blanks, what stands before the end of the line is the value. Both
/// are trimmed of white space. The key may begin with the line break that ended the line
/// before, which the trimming takes off.
pub open spec fn header_spec(s: Seq<char>) -> Option<(Seq<char>, HeaderView)> {
    match take_until1(skip_run(s, CharClass::Blank), seq![':']) {
        None => None,
        Some((s1, key)) => match till_line_ending(skip_run(s1.skip(1), CharClass::Blank)) {
            None => None,
            Some((rest, value)) => Some(
                (
                    rest,
                    HeaderView {
                        key: trim(key, CharClass::Whitespace),
                        value: trim(value, CharClass::Whitespace),
                    },
                ),
            ),
        },
    }
}

/// The headers that `s` begins with, as many as can be read one after another, and what
/// follows them.
pub open spec fn headers_spec(s: Seq<char>) -> (Seq<char>, Seq<HeaderView>)
    decreases s.len(),
{
    match header_spec(s) {
        Some((rest, header)) if rest.len() < s.len() => {
            let (end, more) = headers_spec(rest);
            (end, seq![header] + more)
        },
        _ => (s, Seq::empty()),
    }
}

/// The body that `s` begins with: after white space, one character at least, what
/// stands before the end of the line, trimmed. No body where `s` does not begin so;
/// nothing of `s` is then used up.
pub open spec fn body_spec(s: Seq<char>) -> (Seq<char>, Option<Seq<char>>) {
    match take_run1(s, CharClass::Multispace) {
        None => (s, None),
        Some((s1, _)) => match till_line_ending(s1) {
            None => (s, None),
            Some((rest, line)) => (rest, Some(trim(line, CharClass::Whitespace))),
        },
    }
}

/// The request that `s` begins with: a request line, headers and a body.
pub open spec fn http_request_spec(s: Seq<char>) -> Option<(Seq<char>, HttpRequestView)> {
    match request_line_spec(s) {
        None => None,
        Some((s1, request_line)) => {
            let (s2, headers) = headers_spec(s1);
            let (rest, body) = body_spec(s2);
            Some((rest, HttpRequestView { request_line, headers, body }))
        },
    }
}

/// A header that is read uses up one character at least.
pub proof fn lemma_header_consumes(s: Seq<char>)
    ensures
        header_spec(s) matches Some((rest, _)) ==> rest.len() < s.len(),
{
    crate::text::lemma_run(s, CharClass::Blank);
    let t = skip_run(s, CharClass::Blank);
    if let Some((s1, key)) = take_until1(t, seq![':']) {
        let u = s1.skip(1);
        crate::text::lemma_run(u, CharClass::Blank);
        crate::text::lemma_gap(skip_run(u, CharClass::Blank), CharClass::LineBreak);
    }
}

/// Reads a method: the leading letters of `input`, one at least.
pub fn parse_method<'a>(input: &'a str) -> (r: Result<(&'a str, &'a str), NoMatch>)
    ensures
        match method_spec(input@) {
            Some((rest, method)) => r matches Ok((x, m)) && x@ == rest && m@ == method,
            None => r is Err,
        },
{
    let s = chars_of(input);
    assert(s@.skip(0) == s@);
    let end = run_end(&s, 0, CharClass::Alpha);
    if end == 0 {
        return Err(NoMatch);
    }
    Ok((rest_from(input, end), part_of(input, 0, end)))
}

/// Reads what stands between blanks and the next occurrence of `lit`.
fn parse_word_until<'a>(input: &'a str, lit: &str) -> (r: Result<(&'a str, &'a str), NoMatch>)
    ensures
        match take_run1(input@, CharClass::Blank) {
            None => r is Err,
            Some((rest, _)) => match take_until1(rest, lit@) {
                Some((rest, word)) => r matches Ok((x, w)) && x@ == rest && w@ == word,
                None => r is Err,
            },
        },
{
    let s = chars_of(input);
    assert(s@.skip(0) == s@);
    let from = run_end(&s, 0, CharClass::Blank);
    if from == 0 {
        return Err(NoMatch);
    }
    match until1(&s, from, lit) {
        None => Err(NoMatch),
        Some(at) => Ok((rest_from(input, at), part_of(input, from, at))),
    }
}

/// Reads a path: after blanks, what stands before the next space.
pub fn parse_path<'a>(input: &'a str) -> (r: Result<(&'a str, &'a str), NoMatch>)
    ensures
        match path_spec(input@) {
            Some((rest, path)) => r matches Ok((x, p)) && x@ == rest && p@ == path,
            None => r is Err,
        },
{
    proof {
        reveal_strlit(" ");
        assert(" "@ == seq![' ']);
    }
    parse_word_until(input, " ")
}

/// Reads a version: after blanks, what stands before the end of the line, which has to
/// be a carriage return with a line feed.
pub fn parse_version<'a>(input: &'a str) -> (r: Result<(&'a str, &'a str), NoMatch>)
    ensures
        match version_spec(input@) {
            Some((rest, version)) => r matches Ok((x, v)) && x@ == rest && v@ == version,
            None => r is Err,
        },
{
    proof {
        reveal_strlit("\r\n");
        assert("\r\n"@ == seq!['\r', '\n']);
    }
    parse_word_until(input, "\r\n")
}

/// Reads a request line: a method, a path and a version.
pub fn parse_request_line<'a>(input: &'a str) -> (r: Result<(&'a str, RequestLine<'a>), NoMatch>)
    ensures
        match request_line_spec(input@) {
            Some((rest, line)) => r matches Ok((x, l)) && x@ == rest && l@ == line,
            None => r is Err,
        },
{
    let (input, method) = match parse_method(input) {
        Ok(found) => found,
        Err(e) => {
            return Err(e);
        },
    };
    let (input, path) = match parse_path(input) {
        Ok(found) => found,
        Err(e) => {
            return Err(e);
        },
    };
    let (input, version) = match parse_version(input) {
        Ok(found) => found,
        Err(e) => {
            return Err(e);
        },
    };
    Ok((input, RequestLine { method, path, version }))
}

/// Reads a header: a key, a colon and a value, each trimmed of white space.
pub fn parse_header<'a>(input: &'a str) -> (r: Result<(&'a str, Header<'a>), NoMatch>)
    ensures
        match header_spec(input@) {
            Some((rest, header)) => r matches Ok((x, h)) && x@ == rest && h@ == header,
            None => r is Err,
        },
{
    let s = chars_of(input);
    assert(s@.skip(0) == s@);
    let from = run_end(&s, 0, CharClass::Blank);
    proof {
        reveal_strlit(":");
        assert(":"@ == seq![':']);
    }
    assert(skip_run(s@, CharClass::Blank) == s@.skip(from as int));
    let colon = match until1(&s, from, ":") {
        None => {
            return Err(NoMatch);
        },
        Some(at) => at,
    };
    let ghost after = s@.skip(colon as int).skip(1);
    assert(after == s@.skip(colon + 1));
    let begin = run_end(&s, colon + 1, CharClass::Blank);
    assert(skip_run(after, CharClass::Blank) == s@.skip(begin as int));
    let end = match line_end(&s, begin) {
        None => {
            return Err(NoMatch);
        },
        Some(end) => end,
    };
    let (a, b) = trim_bounds(&s, from, colon, CharClass::Whitespace);
    let (c, d) = trim_bounds(&s, begin, end, CharClass::Whitespace);
    Ok((rest_from(input, end), Header { key: part_of(input, a, b), value: part_of(input, c, d) }))
}

/// Reads headers one after another until none can be read.
pub fn parse_headers<'a>(input: &'a str) -> (r: Result<(&'a str, Vec<Header<'a>>), NoMatch>)
    ensures
        r matches Ok((x, hs)) && x@ == headers_spec(input@).0 && header_views(hs@) == headers_spec(
            input@,
        ).1,
{
    let mut headers: Vec<Header<'a>> = Vec::new();
    let mut rest = input;
    let ghost whole = headers_spec(input@);
    assert(header_views(headers@) + whole.1 == whole.1);
    loop
        invariant
            whole == headers_spec(input@),
            whole.0 == headers_spec(rest@).0,
            whole.1 == header_views(headers@) + headers_spec(rest@).1,
        decreases rest@.len(),
    {
        proof {
            lemma_header_consumes(rest@);
        }
        match parse_header(rest) {
            Err(_) => {
                assert(header_views(headers@) + Seq::<HeaderView>::empty() == header_views(
                    headers@,
                ));
                return Ok((rest, headers));
            },
            Ok((next, header)) => {
                let ghost before = header_views(headers@);
                let ghost more = headers_spec(next@).1;
                headers.push(header);
                assert(header_views(headers@) == before.push(header@));
                assert(before + (seq![header@] + more) == header_views(headers@) + more);
                rest = next;
            },
        }
    }
}

/// Reads a body, if there is one: after white space, what stands before the end of the
/// line, trimmed.
pub fn parse_body<'a>(input: &'a str) -> (r: Result<(&'a str, Option<&'a str>), NoMatch>)
    ensures
        r matches Ok((x, b)) && x@ == body_spec(input@).0 && match body_spec(input@).1 {
            Some(body) => b matches Some(y) && y@ == body,
            None => b is None,
        },
{
    let s = chars_of(input);
    assert(s@.skip(0) == s@);
    let from = run_end(&s, 0, CharClass::Multispace);
    if from == 0 {
        return Ok((input, None));
    }
    match line_end(&s, from) {
        None => Ok((input, None)),
        Some(end) => {
            let (a, b) = trim_bounds(&s, from, end, CharClass::Whitespace);
            Ok((rest_from(input, end), Some(part_of(input, a, b))))
        },
    }
}

/// Reads a request: a request line, headers and a body.
///
/// Succeeds exactly when `input` begins with a request line; what follows the request
/// is handed back with it.
pub fn parse_http_request<'a>(input: &'a str) -> (r: Result<(&'a str, HttpRequest<'a>), NoMatch>)
    ensures
        match http_request_spec(input@) {
            Some((rest, request)) => r matches Ok((x, q)) && x@ == rest && q@ == request,
            None => r is Err,
        },
{
    let (input, request_line) = match parse_request_line(input) {
        Ok(found) => found,
        Err(e) => {
            return Err(e);
        },
    };
    let (input, headers) = match parse_headers(input) {
        Ok(found) => found,
        Err(e) => {
            return Err(e);
        },
    };
    let (input, body) = match parse_body(input) {
        Ok(found) => found,
        Err(e) => {
            return Err(e);
        },
    };
    Ok((input, HttpRequest { request_line, headers, body }))
}

} // verus!
