//! From the words of a command to the elements of the request it describes.

use vstd::prelude::*;
use crate::curl::error::CurlError;
use crate::curl::lexer::{join_lines, joined, token_views, tokenize, tokens_of, Token, TokenView};
use crate::curl::options::{
    curl_options,
    curl_options_view,
    lookup,
    takes_value,
    Category,
    OptionTable,
    OptionView,
};
use crate::text::{
    chars_of,
    find_char,
    index_of,
    same_chars,
    slice_of,
    to_string,
    trim,
    trimmed,
    CharClass,
};
use crate::url::{decompose, CurlUrl, UrlView};

verus! {

/// An option that sets the request method.
#[derive(Debug, Clone, PartialEq, Eq)]
pub struct CurlMethod {
    /// The name under which the option was given, such as `-X`.
    pub identifier: String,
    /// The method that was given with it.
    pub data: Option<String>,
}

/// An option that adds one header line.
#[derive(Debug, Clone, PartialEq, Eq)]
pub struct CurlHeader {
    /// The name under which the option was given: `-H` or `--header`.
    pub identifier: String,
    /// What stands before the first colon of the line, without surrounding separators.
    pub key: String,
    /// What stands after the first colon of the line, without surrounding separators.
    pub value: String,
}

/// An option that adds one part of the request body.
#[derive(Debug, Clone, PartialEq, Eq)]
pub struct CurlData {
    /// The name under which the option was given, such as `-d` or `--data-raw`.
    pub identifier: String,
    /// The part of the body, as given: a leading `@` stays.
    pub value: String,
}

/// Any other option.
#[derive(Debug, Clone, PartialEq, Eq)]
pub struct CurlFlag {
    /// The name under which the option was given; the whole token for an option that
    /// the table does not know.
    pub identifier: String,
    /// The value of an option that takes one; `None` for a switch and for an option
    /// that the table does not know.
    pub value: Option<String>,
}

/// One element of a request.
#[derive(Debug, Clone, PartialEq, Eq)]
pub enum Curl {
    /// The request method.
    Method(CurlMethod),
    /// The request target.
    URL(CurlUrl),
    /// One header line.
    Header(CurlHeader),
    /// One part of the request body.
    Data(CurlData),
    /// Any other option.
    Flag(CurlFlag),
}

/// The mathematical value of a [`Curl`].
#[allow(inconsistent_fields)]
pub enum CurlView {
    Method { identifier: Seq<char>, data: Option<Seq<char>> },
    URL(UrlView),
    Header { identifier: Seq<char>, key: Seq<char>, value: Seq<char> },
    Data { identifier: Seq<char>, value: Seq<char> },
    Flag { identifier: Seq<char>, value: Option<Seq<char>> },
}

/// The view of an optional string.
pub open spec fn text_of(s: Option<String>) -> Option<Seq<char>> {
    match s {
        Some(s) => Some(s@),
        None => None,
    }
}

impl View for Curl {
    type V = CurlView;

    open spec fn view(&self) -> CurlView {
        match self {
            Curl::Method(m) => CurlView::Method { identifier: m.identifier@, data: text_of(m.data) },
            Curl::URL(u) => CurlView::URL(u@),
            Curl::Header(h) => CurlView::Header {
                identifier: h.identifier@,
                key: h.key@,
                value: h.value@,
            },
            Curl::Data(d) => CurlView::Data { identifier: d.identifier@, value: d.value@ },
            Curl::Flag(f) => CurlView::Flag { identifier: f.identifier@, value: text_of(f.value) },
        }
    }
}

/// The views of the elements of `elements`, in order.
pub open spec fn curl_views(elements: Seq<Curl>) -> Seq<CurlView> {
    elements.map_values(|c: Curl| c@)
}

/// The word that every command begins with.
pub open spec fn curl_word() -> Seq<char> {
    seq!['c', 'u', 'r', 'l']
}

/// Whether `token` is written as an option: it begins with a dash.
pub open spec fn is_option(token: Seq<char>) -> bool {
    token.len() > 0 && token[0] == '-'
}

/// The index of the first argument at or after `i` that is not written as an option, or
/// the number of arguments when there is none.
pub open spec fn first_bare(args: Seq<TokenView>, i: int) -> int
    decreases args.len() - i,
{
    if i < 0 || i >= args.len() {
        args.len() as int
    } else if !is_option(args[i].value) {
        i
    } else {
        first_bare(args, i + 1)
    }
}

/// The key of the header line `line`: what stands before its first colon, trimmed; all
/// of the line, trimmed, when it has no colon.
pub open spec fn header_key(line: Seq<char>) -> Seq<char> {
    trim(line.take(index_of(line, ':', 0)), CharClass::Multispace)
}

/// The value of the header line `line`: what stands after its first colon, trimmed;
/// nothing when it has no colon.
pub open spec fn header_value(line: Seq<char>) -> Seq<char> {
    let colon = index_of(line, ':', 0);
    if colon < line.len() {
        trim(line.skip(colon + 1), CharClass::Multispace)
    } else {
        Seq::empty()
    }
}

/// The element that the option of entry `e` becomes when it is given `value`.
pub open spec fn element_with(e: OptionView, value: Seq<char>) -> CurlView {
    match e.category {
        Category::Method => CurlView::Method { identifier: e.name, data: Some(value) },
        Category::Header => CurlView::Header {
            identifier: e.name,
            key: header_key(value),
            value: header_value(value),
        },
        Category::Data => CurlView::Data { identifier: e.name, value },
        Category::Flag => CurlView::Flag { identifier: e.name, value: Some(value) },
    }
}

/// The value that `token` attaches to the name of entry `e`: what follows the name,
/// without the `=` that may introduce it. A `=` further on belongs to the value.
pub open spec fn attached_value(e: OptionView, token: Seq<char>) -> Seq<char> {
    let rest = token.skip(e.name.len() as int);
    if rest.len() > 0 && rest[0] == '=' {
        rest.skip(1)
    } else {
        rest
    }
}

/// What the argument at index `i` of `args` denotes, and the index of the argument to
/// go on with.
///
/// An argument that is not written as an option denotes nothing. One that no entry of
/// the table recognizes is a flag under its whole text, without a value. One that an
/// entry recognizes takes the value attached to it; if none is attached and the option
/// takes a value, the value is the next argument, which is thereby used up. `None` when
/// that next argument is wanted and there is none.
pub open spec fn classify_at(table: Seq<OptionView>, args: Seq<TokenView>, i: int) -> Option<
    (Option<CurlView>, int),
> {
    let token = args[i].value;
    if !is_option(token) {
        Some((None, i + 1))
    } else {
        match lookup(table, token) {
            None => Some((Some(CurlView::Flag { identifier: token, value: None }), i + 1)),
            Some(k) => {
                let e = table[k];
                if token.len() > e.name.len() {
                    Some((Some(element_with(e, attached_value(e, token))), i + 1))
                } else if takes_value(e) {
                    if i + 1 < args.len() {
                        Some((Some(element_with(e, args[i + 1].value)), i + 2))
                    } else {
                        None
                    }
                } else {
                    Some((Some(CurlView::Flag { identifier: e.name, value: None }), i + 1))
                }
            },
        }
    }
}

/// `rest` with `first` before it, where there is a `first`.
pub open spec fn with_first(first: Option<CurlView>, rest: Seq<CurlView>) -> Seq<CurlView> {
    match first {
        Some(c) => seq![c] + rest,
        None => rest,
    }
}

/// The elements of a command from argument `i` on.
///
/// `args` are the arguments without the one that gave the target, `at` is the index at
/// which that one stood, `url` is the target, and `placed` says whether the target is
/// already among the elements before. The target takes its place before the element
/// of the first argument that stood after it. `None` when an option lacks its value.
pub open spec fn assemble(
    table: Seq<OptionView>,
    args: Seq<TokenView>,
    i: int,
    at: int,
    url: UrlView,
    placed: bool,
) -> Option<Seq<CurlView>>
    decreases args.len() - i, (if placed { 0int } else { 1int }),
{
    if !placed && i >= at {
        match assemble(table, args, i, at, url, true) {
            Some(rest) => Some(seq![CurlView::URL(url)] + rest),
            None => None,
        }
    } else if i < 0 || i >= args.len() {
        Some(Seq::empty())
    } else {
        match classify_at(table, args, i) {
            None => None,
            Some((element, next)) => match assemble(table, args, next, at, url, placed) {
                Some(rest) => Some(with_first(element, rest)),
                None => None,
            },
        }
    }
}

/// The elements of the command whose tokens are `tokens`, read with `table`.
///
/// The first token has to be the word `curl`. Of the others, the arguments, the first
/// that is not written as an option is the target. The remaining arguments are read in
/// order as options and their values.
pub open spec fn elements_of(table: Seq<OptionView>, tokens: Seq<TokenView>) -> Result<
    Seq<CurlView>,
    CurlError,
> {
    if tokens.len() == 0 || tokens[0].value != curl_word() {
        Err(CurlError::NotCurl)
    } else {
        let args = tokens.skip(1);
        let at = first_bare(args, 0);
        if at >= args.len() {
            Err(CurlError::MissingUrl)
        } else {
            match assemble(table, args.remove(at), 0, at, decompose(args[at].value), false) {
                Some(elements) => Ok(elements),
                None => Err(CurlError::MissingValue),
            }
        }
    }
}

/// The elements of the command `text`, read with `table`, or the reason why `text` is
/// rejected.
pub open spec fn parse_spec(table: Seq<OptionView>, text: Seq<char>) -> Result<
    Seq<CurlView>,
    CurlError,
> {
    match tokens_of(joined(text)) {
        None => Err(CurlError::UnterminatedQuote),
        Some(tokens) => elements_of(table, tokens),
    }
}

/// The view of an element that may be absent.
pub open spec fn element_view(c: Option<Curl>) -> Option<CurlView> {
    match c {
        Some(c) => Some(c@),
        None => None,
    }
}

/// Whether `token` begins with a dash.
pub fn is_option_token(token: &Vec<char>) -> (b: bool)
    ensures
        b == is_option(token@),
{
    token.len() > 0 && token[0] == '-'
}

/// Builds the element that the option of `entry` becomes when it is given `value`.
pub fn make_element(entry: &crate::curl::options::OptionSpec, value: &Vec<char>) -> (c: Curl)
    ensures
        c@ == element_with(entry@, value@),
{
    let identifier = to_string(&entry.name);
    match entry.category {
        Category::Method => Curl::Method(CurlMethod { identifier, data: Some(to_string(value)) }),
        Category::Header => {
            let colon = find_char(value, ':', 0);
            let key = trimmed(value, 0, colon, CharClass::Multispace);
            let text = if colon < value.len() {
                trimmed(value, colon + 1, value.len(), CharClass::Multispace)
            } else {
                Vec::new()
            };
            Curl::Header(CurlHeader { identifier, key: to_string(&key), value: to_string(&text) })
        },
        Category::Data => Curl::Data(CurlData { identifier, value: to_string(value) }),
        Category::Flag => Curl::Flag(CurlFlag { identifier, value: Some(to_string(value)) }),
    }
}

/// Reads the argument at index `i`: the element it denotes, if any, and the index of
/// the argument to go on with; `None` when the argument is an option that lacks its
/// value.
pub fn classify(table: &OptionTable, args: &Vec<Token>, i: usize) -> (r: Option<
    (Option<Curl>, usize),
>)
    requires
        i < args.len(),
    ensures
        match classify_at(table@, token_views(args@), i as int) {
            None => r is None,
            Some((element, next)) => r matches Some((c, n)) && element_view(c) == element && n
                == next && i < n <= args.len(),
        },
{
    let token = &args[i].value;
    assert(token_views(args@)[i as int] == args@[i as int]@);
    if !is_option_token(token) {
        return Some((None, i + 1));
    }
    match table.lookup(token) {
        None => {
            let flag = CurlFlag { identifier: to_string(token), value: None };
            Some((Some(Curl::Flag(flag)), i + 1))
        },
        Some(k) => {
            let entry = &table.entries[k];
            assert(table@[k as int] == entry@);
            let n = entry.name.len();
            if token.len() > n {
                let from: usize = if token[n] == '=' {
                    n + 1
                } else {
                    n
                };
                let value = slice_of(token, from, token.len());
                assert(value@ == attached_value(entry@, token@));
                Some((Some(make_element(entry, &value)), i + 1))
            } else if entry.takes_value() {
                if i + 1 < args.len() {
                    assert(token_views(args@)[i + 1] == args@[i + 1]@);
                    Some((Some(make_element(entry, &args[i + 1].value)), i + 2))
                } else {
                    None
                }
            } else {
                let flag = CurlFlag { identifier: to_string(&entry.name), value: None };
                Some((Some(Curl::Flag(flag)), i + 1))
            }
        },
    }
}

/// `front` followed by `rest`, where there is a `rest`.
pub open spec fn followed_by(front: Seq<CurlView>, rest: Option<Seq<CurlView>>) -> Option<
    Seq<CurlView>,
> {
    match rest {
        Some(rest) => Some(front + rest),
        None => None,
    }
}

/// Adds `element` to `elements`, where there is one.
fn push_element(elements: &mut Vec<Curl>, element: Option<Curl>)
    ensures
        curl_views(final(elements)@) == curl_views(old(elements)@) + with_first(
            element_view(element),
            Seq::empty(),
        ),
{
    let ghost before = curl_views(elements@);
    match element {
        Some(c) => {
            let ghost cv = c@;
            elements.push(c);
            assert(curl_views(elements@) == before.push(cv));
            assert(before.push(cv) == before + (seq![cv] + Seq::<CurlView>::empty()));
        },
        None => {
            assert(before == before + Seq::<CurlView>::empty());
        },
    }
}

/// Reads the arguments of a command into its elements.
///
/// `args` are the arguments without the one that gave the target `url`, and `at` is the
/// index at which that one stood. `None` exactly when an option that takes a value
/// stands last with nothing attached to it.
pub fn assemble_elements(table: &OptionTable, args: &Vec<Token>, at: usize, url: CurlUrl) -> (r:
    Option<Vec<Curl>>)
    requires
        at <= args.len(),
    ensures
        match assemble(table@, token_views(args@), 0, at as int, url@, false) {
            Some(all) => r matches Some(elements) && curl_views(elements@) == all,
            None => r is None,
        },
{
    let ghost views = token_views(args@);
    let ghost target = url@;
    let ghost whole = assemble(table@, views, 0, at as int, target, false);
    let mut elements: Vec<Curl> = Vec::new();
    let mut i: usize = 0;
    assert(whole matches Some(all) ==> curl_views(elements@) + all == all);
    while i < at
        invariant
            i <= args.len(),
            at <= args.len(),
            target == url@,
            views == token_views(args@),
            whole == assemble(table@, views, 0, at as int, target, false),
            whole == followed_by(
                curl_views(elements@),
                assemble(table@, views, i as int, at as int, target, false),
            ),
        decreases args.len() - i,
    {
        let ghost front = curl_views(elements@);
        let ghost first = classify_at(table@, views, i as int);
        match classify(table, args, i) {
            None => {
                return None;
            },
            Some((element, next)) => {
                push_element(&mut elements, element);
                i = next;
                let ghost rest = assemble(table@, views, i as int, at as int, target, false);
                assert(rest matches Some(rest) ==> front + with_first(first.unwrap().0, rest)
                    == front + with_first(first.unwrap().0, Seq::empty()) + rest);
            },
        }
    }
    let ghost front = curl_views(elements@);
    elements.push(Curl::URL(url));
    assert(curl_views(elements@) == front.push(CurlView::URL(target)));
    assert(assemble(table@, views, i as int, at as int, target, true) matches Some(rest) ==> front
        + (seq![CurlView::URL(target)] + rest) == curl_views(elements@) + rest);
    while i < args.len()
        invariant
            i <= args.len(),
            target == url@,
            views == token_views(args@),
            whole == assemble(table@, views, 0, at as int, target, false),
            whole == followed_by(
                curl_views(elements@),
                assemble(table@, views, i as int, at as int, target, true),
            ),
        decreases args.len() - i,
    {
        let ghost front = curl_views(elements@);
        let ghost first = classify_at(table@, views, i as int);
        match classify(table, args, i) {
            None => {
                return None;
            },
            Some((element, next)) => {
                push_element(&mut elements, element);
                i = next;
                let ghost rest = assemble(table@, views, i as int, at as int, target, true);
                assert(rest matches Some(rest) ==> front + with_first(first.unwrap().0, rest)
                    == front + with_first(first.unwrap().0, Seq::empty()) + rest);
            },
        }
    }
    assert(curl_views(elements@) + Seq::<CurlView>::empty() == curl_views(elements@));
    Some(elements)
}

/// The index of the first argument that does not begin with a dash, or the number of
/// arguments.
pub fn find_target(args: &Vec<Token>) -> (at: usize)
    ensures
        at == first_bare(token_views(args@), 0),
        at <= args.len(),
{
    let mut i: usize = 0;
    while i < args.len()
        invariant
            i <= args.len(),
            first_bare(token_views(args@), 0) == first_bare(token_views(args@), i as int),
        decreases args.len() - i,
    {
        assert(token_views(args@)[i as int] == args@[i as int]@);
        if !is_option_token(&args[i].value) {
            return i;
        }
        i += 1;
    }
    i
}

/// Reads the tokens of a command into the elements of its request.
///
/// Fails with [`CurlError::NotCurl`] when the first token is not the word `curl`, else
/// with [`CurlError::MissingUrl`] when every argument begins with a dash, else with
/// [`CurlError::MissingValue`] when the last option wants a value and has none.
pub fn parse_tokens(table: &OptionTable, tokens: Vec<Token>) -> (r: Result<Vec<Curl>, CurlError>)
    ensures
        match elements_of(table@, token_views(tokens@)) {
            Ok(all) => r matches Ok(elements) && curl_views(elements@) == all,
            Err(e) => r matches Err(x) && x == e,
        },
{
    let ghost views = token_views(tokens@);
    let mut args = tokens;
    if args.len() == 0 {
        return Err(CurlError::NotCurl);
    }
    let first = args.remove(0);
    assert(first@ == views[0]);
    assert(token_views(args@) == views.skip(1));
    let mut word: Vec<char> = Vec::new();
    word.push('c');
    word.push('u');
    word.push('r');
    word.push('l');
    assert(word@ == curl_word());
    if !same_chars(&first.value, &word) {
        return Err(CurlError::NotCurl);
    }
    let at = find_target(&args);
    if at >= args.len() {
        return Err(CurlError::MissingUrl);
    }
    let ghost all_args = token_views(args@);
    let target = args.remove(at);
    assert(target@ == all_args[at as int]);
    assert(token_views(args@) == all_args.remove(at as int));
    let url = CurlUrl::from_chars(&target.value);
    match assemble_elements(table, &args, at, url) {
        Some(elements) => Ok(elements),
        None => Err(CurlError::MissingValue),
    }
}

/// Parses the text of a curl command with the options of `table`.
///
/// Backslashes that end a line join it to the next; the text is cut into tokens at
/// separators outside quotations; the first token has to be `curl`; the first other
/// token that does not begin with a dash is the target; the remaining tokens are read
/// as options with the help of `table`. The elements come in the order of the tokens
/// they were read from. On failure nothing but the reason is returned.
pub fn parse_with_options(input: &str, table: &OptionTable) -> (r: Result<Vec<Curl>, CurlError>)
    ensures
        match parse_spec(table@, input@) {
            Ok(all) => r matches Ok(elements) && curl_views(elements@) == all,
            Err(e) => r matches Err(x) && x == e,
        },
{
    let text = chars_of(input);
    let line = join_lines(&text);
    match tokenize(&line) {
        Err(e) => Err(e),
        Ok(tokens) => parse_tokens(table, tokens),
    }
}

/// Parses the text of a curl command with the options that this crate knows by name.
///
/// Succeeds with the elements of the request in the order of the tokens they were read
/// from, or fails with the first of these that applies: a quotation is left open; the
/// first token is not `curl`; every argument begins with a dash; the last option wants a
/// value and has none.
pub fn parse_curl_command(input: &str) -> (r: Result<Vec<Curl>, CurlError>)
    ensures
        match parse_spec(curl_options_view(), input@) {
            Ok(all) => r matches Ok(elements) && curl_views(elements@) == all,
            Err(e) => r matches Err(x) && x == e,
        },
{
    let table = curl_options();
    parse_with_options(input, &table)
}

/// Parses the text of a curl command as [`parse_curl_command`] does, and reports a
/// failure by its message.
pub fn curl_cmd_parse(input: &str) -> (r: Result<Vec<Curl>, String>)
    ensures
        match parse_spec(curl_options_view(), input@) {
            Ok(all) => r matches Ok(elements) && curl_views(elements@) == all,
            Err(e) => r matches Err(message) && message@ == e.text(),
        },
{
    match parse_curl_command(input) {
        Ok(elements) => Ok(elements),
        Err(e) => Err(e.message()),
    }
}

} // verus!
