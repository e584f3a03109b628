//! What holds of every command: laws of the lexer and of the parser, each proved from
//! the definitions that the contracts of the executable functions use.

use vstd::prelude::*;
use crate::curl::error::CurlError;
use crate::curl::lexer::{
    is_quote,
    joined,
    joined_from,
    lemma_scan_end,
    lemma_skip_spaces,
    scan,
    skip_spaces,
    token_at,
    tokens_from,
    tokens_of,
    Quoting,
    TokenView,
};
use crate::curl::options::{
    best_match,
    curl_options_view,
    lemma_best_match,
    lemma_curl_option_names,
    lookup,
    recognizes,
    takes_value,
    well_formed,
    Category,
    OptionView,
};
use crate::curl::parser::{
    assemble,
    attached_value,
    classify_at,
    curl_word,
    element_with,
    elements_of,
    first_bare,
    is_option,
    parse_spec,
    with_first,
    CurlView,
};
use crate::text::is_space;
use crate::url::{decompose, UrlView};

verus! {

/// Whether `elements` holds the target `url` at index `k` and no target anywhere else.
pub open spec fn only_url_at(elements: Seq<CurlView>, k: int, url: UrlView) -> bool {
    &&& 0 <= k < elements.len()
    &&& elements[k] == CurlView::URL(url)
    &&& forall|j: int| 0 <= j < elements.len() && j != k ==> !(#[trigger] elements[j] is URL)
}

/// What an argument denotes is never a target.
pub proof fn lemma_classified_is_no_url(table: Seq<OptionView>, args: Seq<TokenView>, i: int)
    ensures
        classify_at(table, args, i) matches Some((Some(c), _)) ==> !(c is URL),
{
}

/// Reading arguments places the target once: not at all where it is placed already,
/// and else at one index.
pub proof fn lemma_assemble_places_url_once(
    table: Seq<OptionView>,
    args: Seq<TokenView>,
    i: int,
    at: int,
    url: UrlView,
    placed: bool,
)
    requires
        0 <= i,
        at <= args.len(),
    ensures
        assemble(table, args, i, at, url, placed) matches Some(elements) ==> if placed {
            forall|j: int| 0 <= j < elements.len() ==> !(#[trigger] elements[j] is URL)
        } else {
            exists|k: int| only_url_at(elements, k, url)
        },
    decreases args.len() - i, (if placed { 0int } else { 1int }),
{
    if !placed && i >= at {
        lemma_assemble_places_url_once(table, args, i, at, url, true);
        if let Some(elements) = assemble(table, args, i, at, url, placed) {
            assert(only_url_at(elements, 0, url));
        }
    } else if i < 0 || i >= args.len() {
    } else {
        lemma_classified_is_no_url(table, args, i);
        if let Some((element, next)) = classify_at(table, args, i) {
            lemma_assemble_places_url_once(table, args, next, at, url, placed);
            if let Some(rest) = assemble(table, args, next, at, url, placed) {
                let elements = with_first(element, rest);
                let shift: int = if element is Some { 1 } else { 0 };
                assert(elements.len() == rest.len() + shift);
                if placed {
                    assert forall|j: int| 0 <= j < elements.len() implies !(
                    #[trigger] elements[j] is URL) by {
                        if j >= shift {
                            assert(elements[j] == rest[j - shift]);
                        }
                    }
                } else {
                    let k = choose|k: int| only_url_at(rest, k, url);
                    assert(elements[k + shift] == rest[k]);
                    assert forall|j: int|
                        0 <= j < elements.len() && j != k + shift implies !(
                    #[trigger] elements[j] is URL) by {
                        if j >= shift {
                            assert(elements[j] == rest[j - shift]);
                        }
                    }
                    assert(only_url_at(elements, k + shift, url));
                }
            }
        }
    }
}

/// The arguments of the command `text`: its tokens after the first.
pub open spec fn arguments_of(text: Seq<char>) -> Seq<TokenView>
    recommends
        tokens_of(joined(text)) is Some,
{
    tokens_of(joined(text)).unwrap().skip(1)
}

/// The argument of the command `text` that is its target: the first that does not
/// begin with a dash.
pub open spec fn target_of(text: Seq<char>) -> Seq<char> {
    arguments_of(text)[first_bare(arguments_of(text), 0)].value
}

/// Every command that parses has exactly one target among its elements: the first
/// argument that does not begin with a dash, decomposed.
pub proof fn law_exactly_one_url(table: Seq<OptionView>, text: Seq<char>)
    ensures
        parse_spec(table, text) matches Ok(elements) ==> !is_option(target_of(text)) && exists|
            k: int,
        | only_url_at(elements, k, decompose(target_of(text))),
{
    if let Ok(elements) = parse_spec(table, text) {
        let args = arguments_of(text);
        let at = first_bare(args, 0);
        lemma_first_bare(args, 0);
        let url = decompose(target_of(text));
        lemma_assemble_places_url_once(table, args.remove(at), 0, at, url, false);
        assert(assemble(table, args.remove(at), 0, at, url, false) == Some(elements));
        let k = choose|k: int| only_url_at(elements, k, url);
        assert(only_url_at(elements, k, url));
    }
}

/// [`first_bare`] is the least index at or after `i` of an argument that does not begin
/// with a dash.
pub proof fn lemma_first_bare(args: Seq<TokenView>, i: int)
    requires
        0 <= i <= args.len(),
    ensures
        i <= first_bare(args, i) <= args.len(),
        first_bare(args, i) < args.len() ==> !is_option(args[first_bare(args, i)].value),
        forall|k: int| i <= k < first_bare(args, i) ==> is_option(#[trigger] args[k].value),
    decreases args.len() - i,
{
    if i < args.len() && is_option(args[i].value) {
        lemma_first_bare(args, i + 1);
    }
}

/// Whether the option element `c` agrees with `table`.
///
/// Its identifier begins with a dash. A method, a header and a piece of data go by the
/// name of an entry of their category, and a method has its name. A flag does not go by
/// the name of an entry of another category; where it goes by the name of an entry, it
/// has a value exactly if that entry takes one; where it goes by no name of the table,
/// it has none.
pub open spec fn element_fits(table: Seq<OptionView>, c: CurlView) -> bool {
    match c {
        CurlView::URL(_) => true,
        CurlView::Method { identifier, data } => {
            &&& is_option(identifier)
            &&& data is Some
            &&& exists|k: int|
                0 <= k < table.len() && (#[trigger] table[k]).name == identifier
                    && table[k].category == Category::Method
        },
        CurlView::Header { identifier, .. } => {
            &&& is_option(identifier)
            &&& exists|k: int|
                0 <= k < table.len() && (#[trigger] table[k]).name == identifier
                    && table[k].category == Category::Header
        },
        CurlView::Data { identifier, .. } => {
            &&& is_option(identifier)
            &&& exists|k: int|
                0 <= k < table.len() && (#[trigger] table[k]).name == identifier
                    && table[k].category == Category::Data
        },
        CurlView::Flag { identifier, value } => {
            &&& is_option(identifier)
            &&& forall|k: int|
                0 <= k < table.len() && (#[trigger] table[k]).name == identifier ==> {
                    &&& table[k].category == Category::Flag
                    &&& value is Some <==> takes_value(table[k])
                }
            &&& value is Some ==> exists|k: int|
                0 <= k < table.len() && (#[trigger] table[k]).name == identifier
        },
    }
}

/// What an argument denotes agrees with the table.
pub proof fn lemma_classified_fits(table: Seq<OptionView>, args: Seq<TokenView>, i: int)
    requires
        well_formed(table),
        0 <= i < args.len(),
    ensures
        classify_at(table, args, i) matches Some((Some(c), _)) ==> element_fits(table, c),
{
    let token = args[i].value;
    lemma_best_match(table, token, table.len() as int);
    if let Some((Some(c), _)) = classify_at(table, args, i) {
        match lookup(table, token) {
            None => {
                assert forall|k: int| 0 <= k < table.len() implies (#[trigger] table[k]).name
                    != token by {
                    if table[k].name == token {
                        assert(token.subrange(0, token.len() as int) == token);
                        assert(recognizes(table[k], token));
                    }
                }
            },
            Some(k) => {
                let e = table[k];
                assert(e.name.len() > 0 && e.name[0] == '-');
                assert forall|j: int|
                    0 <= j < table.len() && (#[trigger] table[j]).name == e.name implies j
                    == k by {}
                if token.len() > e.name.len() {
                    assert(c == element_with(e, attached_value(e, token)));
                } else if takes_value(e) {
                    assert(c == element_with(e, args[i + 1].value));
                } else {
                    assert(c == (CurlView::Flag { identifier: e.name, value: None }));
                }
            },
        }
    }
}

/// Every element that comes of reading arguments agrees with the table.
pub proof fn lemma_assembled_fit(
    table: Seq<OptionView>,
    args: Seq<TokenView>,
    i: int,
    at: int,
    url: UrlView,
    placed: bool,
)
    requires
        well_formed(table),
        0 <= i,
    ensures
        assemble(table, args, i, at, url, placed) matches Some(elements) ==> forall|j: int|
            0 <= j < elements.len() ==> element_fits(table, #[trigger] elements[j]),
    decreases args.len() - i, (if placed { 0int } else { 1int }),
{
    if !placed && i >= at {
        lemma_assembled_fit(table, args, i, at, url, true);
        if let Some(rest) = assemble(table, args, i, at, url, true) {
            let elements = seq![CurlView::URL(url)] + rest;
            assert forall|j: int| 0 <= j < elements.len() implies element_fits(
                table,
                #[trigger] elements[j],
            ) by {
                if j > 0 {
                    assert(elements[j] == rest[j - 1]);
                }
            }
        }
    } else if i >= args.len() {
    } else {
        lemma_classified_fits(table, args, i);
        if let Some((element, next)) = classify_at(table, args, i) {
            lemma_assembled_fit(table, args, next, at, url, placed);
            if let Some(rest) = assemble(table, args, next, at, url, placed) {
                let elements = with_first(element, rest);
                let shift: int = if element is Some { 1 } else { 0 };
                assert forall|j: int| 0 <= j < elements.len() implies element_fits(
                    table,
                    #[trigger] elements[j],
                ) by {
                    if j >= shift {
                        assert(elements[j] == rest[j - shift]);
                    }
                }
            }
        }
    }
}

/// Every option element of a command that parses agrees with the table it was read
/// with: its identifier keeps its leading dash, a switch has no value, and an option
/// that takes a value has one.
pub proof fn law_elements_fit_table(table: Seq<OptionView>, text: Seq<char>)
    requires
        well_formed(table),
    ensures
        parse_spec(table, text) matches Ok(elements) ==> forall|j: int|
            0 <= j < elements.len() ==> element_fits(table, #[trigger] elements[j]),
{
    if let Ok(elements) = parse_spec(table, text) {
        let args = arguments_of(text);
        let at = first_bare(args, 0);
        let url = decompose(target_of(text));
        lemma_assembled_fit(table, args.remove(at), 0, at, url, false);
        assert(assemble(table, args.remove(at), 0, at, url, false) == Some(elements));
    }
}

/// Whether `name` is one of the switches that this crate knows by name.
pub open spec fn is_curl_switch(name: Seq<char>) -> bool {
    name == "-k"@ || name == "-L"@ || name == "-v"@ || name == "--insecure"@ || name
        == "--retry-all-errors"@
}

/// Whether `name` is one of the flags with a value that this crate knows by name.
pub open spec fn is_curl_value_flag(name: Seq<char>) -> bool {
    name == "-o"@ || name == "-x"@ || name == "--cert"@ || name == "--key"@ || name == "--cacert"@
        || name == "--output"@ || name == "--max-time"@
}

/// In every command that parses with the options of curl, a flag under the name of a
/// switch has no value, and a flag under the name of an option that takes a value has
/// one, whether it was attached with `=` or stood in the next token.
pub proof fn law_curl_flag_values(text: Seq<char>, j: int)
    requires
        parse_spec(curl_options_view(), text) matches Ok(elements) && 0 <= j < elements.len()
            && elements[j] is Flag,
    ensures
        parse_spec(curl_options_view(), text) matches Ok(elements) && (
        elements[j] matches CurlView::Flag { identifier, value } && {
            &&& is_curl_switch(identifier) ==> value is None
            &&& is_curl_value_flag(identifier) ==> value is Some
        }),
{
    let table = curl_options_view();
    lemma_curl_option_names();
    law_elements_fit_table(table, text);
    let elements = parse_spec(table, text)->Ok_0;
    assert(element_fits(table, elements[j]));
    assert(table[9].name == "-k"@);
    assert(table[10].name == "-L"@);
    assert(table[11].name == "-v"@);
    assert(table[12].name == "--insecure"@);
    assert(table[13].name == "--retry-all-errors"@);
    assert(table[14].name == "-o"@);
    assert(table[15].name == "-x"@);
    assert(table[16].name == "--cert"@);
    assert(table[17].name == "--key"@);
    assert(table[18].name == "--cacert"@);
    assert(table[19].name == "--output"@);
    assert(table[20].name == "--max-time"@);
}

/// With the options of curl, what follows `-d` directly in its token is the value of
/// the data, whole: only a `=` that leads it is taken off, and a `=` inside it is not
/// looked at again.
pub proof fn law_attached_data_is_kept_whole(args: Seq<TokenView>, i: int, value: Seq<char>)
    requires
        0 <= i < args.len(),
        value.len() > 0,
        args[i].value == "-d"@ + value,
    ensures
        classify_at(curl_options_view(), args, i) == Some(
            (
                Some(
                    CurlView::Data {
                        identifier: "-d"@,
                        value: if value[0] == '=' {
                            value.skip(1)
                        } else {
                            value
                        },
                    },
                ),
                i + 1,
            ),
        ),
{
    let table = curl_options_view();
    let token = args[i].value;
    lemma_best_match(table, token, table.len() as int);
    reveal_strlit("-X");
    reveal_strlit("--request");
    reveal_strlit("-H");
    reveal_strlit("--header");
    reveal_strlit("-d");
    reveal_strlit("--data");
    reveal_strlit("--data-raw");
    reveal_strlit("--data-urlencode");
    reveal_strlit("--data-binary");
    reveal_strlit("-k");
    reveal_strlit("-L");
    reveal_strlit("-v");
    reveal_strlit("--insecure");
    reveal_strlit("--retry-all-errors");
    reveal_strlit("-o");
    reveal_strlit("-x");
    reveal_strlit("--cert");
    reveal_strlit("--key");
    reveal_strlit("--cacert");
    reveal_strlit("--output");
    reveal_strlit("--max-time");
    assert(token[0] == '-' && token[1] == 'd');
    assert(table[4].name == "-d"@);
    assert(token.subrange(0, 2) == "-d"@);
    assert(recognizes(table[4], token));
    let k = lookup(table, token).unwrap();
    assert(table[k].name[1] == token.subrange(0, table[k].name.len() as int)[1]);
    assert(k == 4);
    assert(token.skip(2) == value);
}

/// With any table, what a token attaches to the name of its option is the value of
/// the option, whole: the token is the name, the `=` that may follow it, and the value,
/// and nothing of the value is read again.
pub proof fn law_attached_value_is_kept_whole(
    table: Seq<OptionView>,
    args: Seq<TokenView>,
    i: int,
    k: int,
)
    requires
        well_formed(table),
        0 <= i < args.len(),
        0 <= k < table.len(),
        lookup(table, args[i].value) == Some(k),
        args[i].value.len() > table[k].name.len(),
    ensures
        classify_at(table, args, i) == Some(
            (Some(element_with(table[k], attached_value(table[k], args[i].value))), i + 1),
        ),
        args[i].value == table[k].name + attached_value(table[k], args[i].value)
            || args[i].value == table[k].name + seq!['='] + attached_value(
            table[k],
            args[i].value,
        ),
        takes_value(table[k]),
{
    let token = args[i].value;
    let name = table[k].name;
    lemma_best_match(table, token, table.len() as int);
    assert(is_option(token)) by {
        assert(recognizes(table[k], token));
        assert(name.len() > 0 && name[0] == '-');
        assert(token.subrange(0, name.len() as int)[0] == name[0]);
    }
    let rest = token.skip(name.len() as int);
    assert(token == name + rest) by {
        assert(token.subrange(0, name.len() as int) == name);
    }
    if rest[0] == '=' {
        assert(rest == seq!['='] + rest.skip(1));
        assert(name + rest == name + seq!['='] + rest.skip(1));
    }
}

/// Whether `name` is the name of an option of `table` that takes a value.
pub open spec fn wants_value(table: Seq<OptionView>, name: Seq<char>) -> bool {
    exists|k: int| 0 <= k < table.len() && (#[trigger] table[k]).name == name && takes_value(table[k])
}

/// Reading arguments fails only where the last of them is the bare name of an option
/// that takes a value.
pub proof fn lemma_assemble_succeeds(
    table: Seq<OptionView>,
    args: Seq<TokenView>,
    i: int,
    at: int,
    url: UrlView,
    placed: bool,
)
    requires
        0 <= i,
        args.len() > 0 ==> !wants_value(table, args.last().value),
    ensures
        assemble(table, args, i, at, url, placed) is Some,
    decreases args.len() - i, (if placed { 0int } else { 1int }),
{
    if !placed && i >= at {
        lemma_assemble_succeeds(table, args, i, at, url, true);
    } else if i >= args.len() {
    } else {
        let token = args[i].value;
        lemma_best_match(table, token, table.len() as int);
        if let Some(k) = lookup(table, token) {
            if token.len() <= table[k].name.len() && takes_value(table[k]) && i + 1 >= args.len() {
                assert(token.subrange(0, token.len() as int) == token);
                assert(table[k].name == token);
                assert(false);
            }
        }
        let next = classify_at(table, args, i).unwrap().1;
        lemma_assemble_succeeds(table, args, next, at, url, placed);
    }
}

/// A command parses whenever its text can be cut into tokens, its first token is
/// `curl`, one of its arguments does not begin with a dash, and the last of the other
/// arguments is not the bare name of an option that takes a value.
pub proof fn law_well_formed_command_parses(table: Seq<OptionView>, text: Seq<char>)
    requires
        tokens_of(joined(text)) matches Some(tokens) && tokens.len() > 0 && tokens[0].value
            == curl_word(),
        first_bare(arguments_of(text), 0) < arguments_of(text).len(),
        ({
            let options = arguments_of(text).remove(first_bare(arguments_of(text), 0));
            options.len() > 0 ==> !wants_value(table, options.last().value)
        }),
    ensures
        parse_spec(table, text) is Ok,
{
    let args = arguments_of(text);
    let at = first_bare(args, 0);
    lemma_assemble_succeeds(table, args.remove(at), 0, at, decompose(args[at].value), false);
}

/// The reasons for which a command is rejected, each with the commands it is given
/// for: an open quotation; else a first token other than `curl`; else no argument
/// without a leading dash; else an option that lacks its value.
pub proof fn law_errors(table: Seq<OptionView>, text: Seq<char>)
    ensures
        parse_spec(table, text) == Err::<Seq<CurlView>, CurlError>(CurlError::UnterminatedQuote)
            <==> tokens_of(joined(text)) is None,
        parse_spec(table, text) == Err::<Seq<CurlView>, CurlError>(CurlError::NotCurl) <==> (
        tokens_of(joined(text)) matches Some(tokens) && (tokens.len() == 0 || tokens[0].value
            != curl_word())),
        parse_spec(table, text) == Err::<Seq<CurlView>, CurlError>(CurlError::MissingUrl) <==> (
        tokens_of(joined(text)) matches Some(tokens) && tokens.len() > 0 && tokens[0].value
            == curl_word() && forall|k: int|
            0 <= k < arguments_of(text).len() ==> is_option(#[trigger] arguments_of(text)[k].value)),
        parse_spec(table, text) == Err::<Seq<CurlView>, CurlError>(CurlError::MissingValue)
            ==> wants_value(
            table,
            arguments_of(text).remove(first_bare(arguments_of(text), 0)).last().value,
        ),
{
    if let Some(tokens) = tokens_of(joined(text)) {
        let args = arguments_of(text);
        lemma_first_bare(args, 0);
        let at = first_bare(args, 0);
        if tokens.len() > 0 && tokens[0].value == curl_word() && at < args.len() {
            let options = args.remove(at);
            if !(options.len() > 0 && wants_value(table, options.last().value)) {
                law_well_formed_command_parses(table, text);
            }
            if options.len() == 0 {
                assert(assemble(table, options, 0, at, decompose(args[at].value), true) is Some);
            }
        }
    }
}

/// Whether no character of `x` is a separator, a quote or a backslash.
pub open spec fn is_plain(x: Seq<char>) -> bool {
    forall|k: int| 0 <= k < x.len() ==> !is_space(#[trigger] x[k]) && !is_quote(x[k]) && x[k] != '\\'
}

/// `x` between two quotes `q`.
pub open spec fn quoted(q: char, x: Seq<char>) -> Seq<char> {
    seq![q] + x + seq![q]
}

/// Characters that neither end a token nor change how the next are read go into the
/// value one by one.
pub proof fn lemma_scan_copies(
    line: Seq<char>,
    start: int,
    i: int,
    j: int,
    quote: Option<char>,
    kind: Quoting,
    value: Seq<char>,
)
    requires
        0 <= i <= j <= line.len(),
        forall|k: int|
            i <= k < j ==> match quote {
                None => !is_space(#[trigger] line[k]) && !is_quote(line[k]),
                Some(q) => line[k] != q && line[k] != '\\',
            },
    ensures
        scan(line, start, i, quote, kind, value) == scan(
            line,
            start,
            j,
            quote,
            kind,
            value + line.subrange(i, j),
        ),
    decreases j - i,
{
    if i < j {
        lemma_scan_copies(line, start, i + 1, j, quote, kind, value.push(line[i]));
        assert(value.push(line[i]) + line.subrange(i + 1, j) == value + line.subrange(i, j));
    } else {
        assert(value + line.subrange(i, j) == value);
    }
}

/// Quoting does not show in the value of a token: a plain word alone, the word in single
/// quotes and the word in double quotes are each one token with the word as its value.
pub proof fn law_quoting_is_lexical(x: Seq<char>)
    requires
        x.len() > 0,
        is_plain(x),
    ensures
        tokens_of(x) == Some(
            seq![TokenView { value: x, quoting: Quoting::Unquoted, start: 0, end: x.len() as int }],
        ),
        tokens_of(quoted('\'', x)) == Some(
            seq![TokenView { value: x, quoting: Quoting::Single, start: 0, end: x.len() as int + 2 }],
        ),
        tokens_of(quoted('"', x)) == Some(
            seq![TokenView { value: x, quoting: Quoting::Double, start: 0, end: x.len() as int + 2 }],
        ),
{
    let n = x.len() as int;
    let none = Seq::<char>::empty();
    lemma_scan_copies(x, 0, 0, n, None, Quoting::Unquoted, none);
    assert(none + x.subrange(0, n) == x);
    let bare = TokenView { value: x, quoting: Quoting::Unquoted, start: 0, end: n };
    assert(token_at(x, 0) == Some(bare));
    assert(tokens_from(x, n) == Some(Seq::<TokenView>::empty()));
    assert(seq![bare] + Seq::<TokenView>::empty() == seq![bare]);
    law_quotation_is_one_token('\'', x);
    law_quotation_is_one_token('"', x);
}

/// Whether `x` can stand between two quotes `q` as it is: it holds neither `q` nor a
/// backslash.
pub open spec fn is_literal_in(q: char, x: Seq<char>) -> bool {
    forall|k: int| 0 <= k < x.len() ==> #[trigger] x[k] != q && x[k] != '\\'
}

/// The quoting of a token whose first quotation opens with `q`.
pub open spec fn quoting_of(q: char) -> Quoting {
    if q == '\'' {
        Quoting::Single
    } else {
        Quoting::Double
    }
}

/// What stands between two quotes is one token, separators and the other quote
/// included, and the token's value is what stands between the quotes.
pub proof fn law_quotation_is_one_token(q: char, x: Seq<char>)
    requires
        is_quote(q),
        is_literal_in(q, x),
    ensures
        tokens_of(quoted(q, x)) == Some(
            seq![TokenView { value: x, quoting: quoting_of(q), start: 0, end: x.len() as int + 2 }],
        ),
{
    let n = x.len() as int;
    let line = quoted(q, x);
    let none = Seq::<char>::empty();
    let kind = quoting_of(q);
    assert(line.len() == n + 2 && line[0] == q && line[n + 1] == q);
    assert forall|k: int| 1 <= k < n + 1 implies #[trigger] line[k] != q && line[k] != '\\' by {
        assert(line[k] == x[k - 1]);
    }
    lemma_scan_copies(line, 0, 1, n + 1, Some(q), kind, none);
    assert(none + line.subrange(1, n + 1) == x);
    let token = TokenView { value: x, quoting: kind, start: 0, end: n + 2 };
    assert(scan(line, 0, n + 2, None, kind, x) == Some(token));
    assert(scan(line, 0, n + 1, Some(q), kind, x) == Some(token));
    assert(scan(line, 0, 1, Some(q), kind, none) == Some(token));
    assert(token_at(line, 0) == Some(token));
    assert(tokens_from(line, n + 2) == Some(Seq::<TokenView>::empty()));
    assert(seq![token] + Seq::<TokenView>::empty() == seq![token]);
}

/// Between two quotes, a backslash makes the character after it part of the value,
/// whatever that character is, and is not part of the value itself.
pub proof fn law_escape_takes_next_character(q: char, before: Seq<char>, c: char, after: Seq<char>)
    requires
        is_quote(q),
        is_literal_in(q, before),
        is_literal_in(q, after),
    ensures
        tokens_of(quoted(q, before + seq!['\\', c] + after)) == Some(
            seq![
                TokenView {
                    value: before + seq![c] + after,
                    quoting: quoting_of(q),
                    start: 0,
                    end: before.len() as int + after.len() + 4,
                },
            ],
        ),
{
    let a = before.len() as int;
    let b = after.len() as int;
    let line = quoted(q, before + seq!['\\', c] + after);
    let none = Seq::<char>::empty();
    let kind = quoting_of(q);
    let n = a + b + 4;
    assert(line.len() == n && line[0] == q && line[n - 1] == q);
    assert(line[a + 1] == '\\' && line[a + 2] == c);
    assert forall|k: int| 1 <= k < a + 1 implies #[trigger] line[k] != q && line[k] != '\\' by {
        assert(line[k] == before[k - 1]);
    }
    assert forall|k: int| a + 3 <= k < n - 1 implies #[trigger] line[k] != q && line[k] != '\\' by {
        assert(line[k] == after[k - a - 3]);
    }
    lemma_scan_copies(line, 0, 1, a + 1, Some(q), kind, none);
    assert(none + line.subrange(1, a + 1) == before);
    lemma_scan_copies(line, 0, a + 3, n - 1, Some(q), kind, before.push(c));
    assert(before.push(c) + line.subrange(a + 3, n - 1) == before + seq![c] + after);
    let value = before + seq![c] + after;
    let token = TokenView { value, quoting: kind, start: 0, end: n };
    assert(scan(line, 0, n, None, kind, value) == Some(token));
    assert(scan(line, 0, n - 1, Some(q), kind, value) == Some(token));
    assert(scan(line, 0, a + 3, Some(q), kind, before.push(c)) == Some(token));
    assert(scan(line, 0, a + 1, Some(q), kind, before) == Some(token));
    assert(scan(line, 0, 1, Some(q), kind, none) == Some(token));
    assert(token_at(line, 0) == Some(token));
    assert(tokens_from(line, n) == Some(Seq::<TokenView>::empty()));
    assert(seq![token] + Seq::<TokenView>::empty() == seq![token]);
}

/// The tokens of a line follow one another without overlap: each begins at a character
/// that is no separator and ends after it, and each ends before the later ones begin.
pub proof fn law_tokens_in_order(line: Seq<char>, i: int)
    requires
        0 <= i <= line.len(),
    ensures
        tokens_from(line, i) matches Some(tokens) ==> {
            &&& forall|k: int|
                0 <= k < tokens.len() ==> i <= (#[trigger] tokens[k]).start < tokens[k].end
                    <= line.len() && !is_space(line[tokens[k].start])
            &&& forall|j: int, k: int|
                0 <= j < k < tokens.len() ==> (#[trigger] tokens[j]).end < (
                #[trigger] tokens[k]).start
        },
    decreases line.len() - i,
{
    let start = skip_spaces(line, i);
    lemma_skip_spaces(line, i);
    if start < line.len() {
        lemma_scan_end(line, start, start, None, Quoting::Unquoted, Seq::empty());
        lemma_token_end(line, start, start, None, Quoting::Unquoted, Seq::empty());
        if let Some(token) = token_at(line, start) {
            law_tokens_in_order(line, token.end);
            if let Some(rest) = tokens_from(line, token.end) {
                let tokens = seq![token] + rest;
                assert(tokens_from(line, i) == Some(tokens));
                assert forall|k: int| 0 <= k < tokens.len() implies i <= (
                #[trigger] tokens[k]).start < tokens[k].end <= line.len() && !is_space(
                    line[tokens[k].start],
                ) by {
                    if k > 0 {
                        assert(tokens[k] == rest[k - 1]);
                    }
                }
                assert forall|j: int, k: int| 0 <= j < k < tokens.len() implies (
                #[trigger] tokens[j]).end < (#[trigger] tokens[k]).start by {
                    assert(tokens[k] == rest[k - 1]);
                    if j > 0 {
                        assert(tokens[j] == rest[j - 1]);
                    }
                }
            }
        }
    }
}

/// A token ends at the end of the line or at a separator.
proof fn lemma_token_end(
    line: Seq<char>,
    start: int,
    i: int,
    quote: Option<char>,
    kind: Quoting,
    value: Seq<char>,
)
    requires
        0 <= i <= line.len(),
    ensures
        scan(line, start, i, quote, kind, value) matches Some(token) ==> token.end == line.len()
            || is_space(line[token.end]),
    decreases line.len() - i,
{
    if i < line.len() {
        match quote {
            None => {
                if is_space(line[i]) {
                } else if is_quote(line[i]) {
                    lemma_token_end(
                        line,
                        start,
                        i + 1,
                        Some(line[i]),
                        crate::curl::lexer::quoting_with(kind, line[i]),
                        value,
                    );
                } else {
                    lemma_token_end(line, start, i + 1, None, kind, value.push(line[i]));
                }
            },
            Some(q) => {
                if line[i] == q {
                    lemma_token_end(line, start, i + 1, None, kind, value);
                } else if line[i] == '\\' {
                    if i + 1 < line.len() {
                        lemma_token_end(line, start, i + 2, quote, kind, value.push(line[i + 1]));
                    }
                } else {
                    lemma_token_end(line, start, i + 1, quote, kind, value.push(line[i]));
                }
            },
        }
    }
}

/// The logical line of a text holds no backslash directly before a line feed, and it is
/// the text itself where the text holds none.
pub proof fn law_joined_has_no_continuation(text: Seq<char>)
    ensures
        forall|k: int|
            0 <= k < joined(text).len() - 1 ==> !(#[trigger] joined(text)[k] == '\\' && joined(
                text,
            )[k + 1] == '\n'),
        (forall|k: int| 0 <= k < text.len() - 1 ==> !(#[trigger] text[k] == '\\' && text[k + 1] == '\n'))
            ==> joined(text) == text,
{
    lemma_joined_from(text, 0);
    assert(text.skip(0) == text);
}

/// What [`law_joined_has_no_continuation`] states, of the line from index `i` on.
proof fn lemma_joined_from(text: Seq<char>, i: int)
    requires
        0 <= i <= text.len(),
    ensures
        forall|k: int|
            0 <= k < joined_from(text, i).len() - 1 ==> !(#[trigger] joined_from(text, i)[k] == '\\'
                && joined_from(text, i)[k + 1] == '\n'),
        i < text.len() ==> joined_from(text, i).len() > 0 && (joined_from(text, i)[0] == text[i]
            || (joined_from(text, i)[0] == ' ' && text[i] == '\\')),
        (forall|k: int| i <= k < text.len() - 1 ==> !(#[trigger] text[k] == '\\' && text[k + 1] == '\n'))
            ==> joined_from(text, i) == text.skip(i),
    decreases text.len() - i,
{
    if i < text.len() {
        let line = joined_from(text, i);
        if text[i] == '\\' && i + 1 < text.len() && text[i + 1] == '\n' {
            lemma_joined_from(text, i + 2);
            let rest = joined_from(text, i + 2);
            assert forall|k: int| 0 <= k < line.len() - 1 implies !(#[trigger] line[k] == '\\'
                && line[k + 1] == '\n') by {
                if k > 0 {
                    assert(line[k] == rest[k - 1] && line[k + 1] == rest[k]);
                }
            }
        } else {
            lemma_joined_from(text, i + 1);
            let rest = joined_from(text, i + 1);
            assert forall|k: int| 0 <= k < line.len() - 1 implies !(#[trigger] line[k] == '\\'
                && line[k + 1] == '\n') by {
                assert(line[k + 1] == rest[k]);
                if k > 0 {
                    assert(line[k] == rest[k - 1]);
                }
            }
            if forall|k: int|
                i <= k < text.len() - 1 ==> !(#[trigger] text[k] == '\\' && text[k + 1] == '\n') {
                assert(seq![text[i]] + text.skip(i + 1) == text.skip(i));
            }
        }
    } else {
        assert(text.skip(i) == Seq::<char>::empty());
    }
}

/// The place among the arguments of a command of the argument that stands at index
/// `i` once the target, which stood at index `at`, is taken out.
pub open spec fn place_of(i: int, at: int) -> int {
    if i < at {
        i
    } else {
        i + 1
    }
}

/// For each element that comes of reading the arguments from index `i` on, the place
/// among the arguments of the command of the argument that it was read from: for the
/// target `at`, and for an option the place of its name.
pub open spec fn sources(
    table: Seq<OptionView>,
    args: Seq<TokenView>,
    i: int,
    at: int,
    placed: bool,
) -> Seq<int>
    decreases args.len() - i, (if placed { 0int } else { 1int }),
{
    if !placed && i >= at {
        seq![at] + sources(table, args, i, at, true)
    } else if i < 0 || i >= args.len() {
        Seq::empty()
    } else {
        match classify_at(table, args, i) {
            None => Seq::empty(),
            Some((element, next)) => if element is Some {
                seq![place_of(i, at)] + sources(table, args, next, at, placed)
            } else {
                sources(table, args, next, at, placed)
            },
        }
    }
}

/// Whether the element `c` is what the argument at the place `source` denotes: the
/// target `url` at the place `at`, and at any other place what the argument there is
/// read as.
pub open spec fn read_from(
    table: Seq<OptionView>,
    args: Seq<TokenView>,
    at: int,
    url: UrlView,
    c: CurlView,
    source: int,
) -> bool {
    if source == at {
        c == CurlView::URL(url)
    } else {
        let i = if source < at {
            source
        } else {
            source - 1
        };
        &&& 0 <= i < args.len()
        &&& classify_at(table, args, i) matches Some((Some(d), _)) && d == c
    }
}

/// The elements that come of reading arguments stand in the order of the arguments
/// that they were read from, and each is what its argument denotes.
pub proof fn lemma_assembled_in_order(
    table: Seq<OptionView>,
    args: Seq<TokenView>,
    i: int,
    at: int,
    url: UrlView,
    placed: bool,
)
    requires
        0 <= i,
        0 <= at,
    ensures
        assemble(table, args, i, at, url, placed) matches Some(elements) ==> {
            let from = sources(table, args, i, at, placed);
            &&& from.len() == elements.len()
            &&& forall|k: int|
                0 <= k < from.len() ==> (#[trigger] from[k]) >= (if placed || i < at {
                    place_of(i, at)
                } else {
                    at
                }) && (placed ==> from[k] != at)
            &&& forall|j: int, k: int|
                0 <= j < k < from.len() ==> (#[trigger] from[j]) < (#[trigger] from[k])
            &&& forall|k: int|
                0 <= k < from.len() ==> read_from(table, args, at, url, elements[k], #[trigger] from[k])
        },
    decreases args.len() - i, (if placed { 0int } else { 1int }),
{
    if let Some(elements) = assemble(table, args, i, at, url, placed) {
        let from = sources(table, args, i, at, placed);
        if !placed && i >= at {
            lemma_assembled_in_order(table, args, i, at, url, true);
            let rest = assemble(table, args, i, at, url, true).unwrap();
            let more = sources(table, args, i, at, true);
            assert(from == seq![at] + more);
            assert(elements == seq![CurlView::URL(url)] + rest);
            assert forall|k: int| 0 <= k < from.len() implies read_from(
                table,
                args,
                at,
                url,
                elements[k],
                #[trigger] from[k],
            ) by {
                if k > 0 {
                    assert(from[k] == more[k - 1] && elements[k] == rest[k - 1]);
                }
            }
            assert forall|j: int, k: int| 0 <= j < k < from.len() implies (#[trigger] from[j]) < (
            #[trigger] from[k]) by {
                assert(from[k] == more[k - 1]);
                if j > 0 {
                    assert(from[j] == more[j - 1]);
                }
            }
        } else if i >= args.len() {
        } else {
            let (element, next) = classify_at(table, args, i).unwrap();
            lemma_assembled_in_order(table, args, next, at, url, placed);
            let rest = assemble(table, args, next, at, url, placed).unwrap();
            let more = sources(table, args, next, at, placed);
            let shift: int = if element is Some { 1 } else { 0 };
            assert(elements == with_first(element, rest));
            assert(from.len() == more.len() + shift);
            assert forall|k: int| shift <= k < from.len() implies from[k] == more[k - shift]
                && elements[k] == rest[k - shift] by {}
            assert forall|k: int| 0 <= k < from.len() implies read_from(
                table,
                args,
                at,
                url,
                elements[k],
                #[trigger] from[k],
            ) by {
                if k >= shift {
                    assert(from[k] == more[k - shift] && elements[k] == rest[k - shift]);
                }
            }
            assert forall|j: int, k: int| 0 <= j < k < from.len() implies (#[trigger] from[j]) < (
            #[trigger] from[k]) by {
                assert(from[k] == more[k - shift]);
                if j >= shift {
                    assert(from[j] == more[j - shift]);
                }
            }
            assert forall|k: int| 0 <= k < from.len() implies (#[trigger] from[k]) >= place_of(
                i,
                at,
            ) && (placed ==> from[k] != at) by {
                if k >= shift {
                    assert(from[k] == more[k - shift]);
                }
            }
        }
    }
}

/// The elements of a command that parses stand in the order of the arguments that they
/// were read from: the target at the place of the first argument without a leading
/// dash, each option at the place of its name, and each is what its argument denotes.
pub proof fn law_elements_in_order(table: Seq<OptionView>, text: Seq<char>)
    ensures
        parse_spec(table, text) matches Ok(elements) ==> {
            let args = arguments_of(text);
            let at = first_bare(args, 0);
            let from = sources(table, args.remove(at), 0, at, false);
            &&& from.len() == elements.len()
            &&& forall|j: int, k: int|
                0 <= j < k < from.len() ==> (#[trigger] from[j]) < (#[trigger] from[k])
            &&& forall|k: int|
                0 <= k < from.len() ==> read_from(
                    table,
                    args.remove(at),
                    at,
                    decompose(target_of(text)),
                    elements[k],
                    #[trigger] from[k],
                )
        },
{
    if let Ok(elements) = parse_spec(table, text) {
        let args = arguments_of(text);
        let at = first_bare(args, 0);
        lemma_first_bare(args, 0);
        let url = decompose(target_of(text));
        lemma_assembled_in_order(table, args.remove(at), 0, at, url, false);
        assert(assemble(table, args.remove(at), 0, at, url, false) == Some(elements));
    }
}

} // verus!
