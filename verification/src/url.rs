//! The request target of a curl command and its decomposition.

use vstd::prelude::*;
use crate::text::{chars_of, find_char, find_seq, index_of, index_of_seq, string_of, to_string};

verus! {

/// The target of a request, split into its parts.
#[derive(Debug, Clone, PartialEq, Eq)]
pub struct CurlUrl {
    /// The text the parts were taken from.
    pub raw: String,
    /// What stands before the first `://`, when there is one.
    pub scheme: Option<String>,
    /// What follows the scheme, up to the first `/`.
    pub host: String,
    /// What follows the first `/`, up to the first `?`. A target without a `/` has no
    /// path segment of its own: its path is then read from the host text.
    pub path: String,
    /// What follows the first `?` of the path text, when there is one.
    pub query: Option<String>,
}

/// The mathematical value of a [`CurlUrl`].
pub struct UrlView {
    pub raw: Seq<char>,
    pub scheme: Option<Seq<char>>,
    pub host: Seq<char>,
    pub path: Seq<char>,
    pub query: Option<Seq<char>>,
}

impl View for CurlUrl {
    type V = UrlView;

    open spec fn view(&self) -> UrlView {
        UrlView {
            raw: self.raw@,
            scheme: match self.scheme {
                Some(s) => Some(s@),
                None => None,
            },
            host: self.host@,
            path: self.path@,
            query: match self.query {
                Some(q) => Some(q@),
                None => None,
            },
        }
    }
}

/// The separator between a scheme and the rest of a target.
pub open spec fn scheme_mark() -> Seq<char> {
    seq![':', '/', '/']
}

/// What stands before the first `://` of `raw`, when `raw` holds one.
pub open spec fn scheme_of(raw: Seq<char>) -> Option<Seq<char>> {
    let at = index_of_seq(raw, scheme_mark(), 0);
    if at < raw.len() {
        Some(raw.take(at))
    } else {
        None
    }
}

/// What follows the first `://` of `raw`; all of `raw` when it holds none.
pub open spec fn after_scheme(raw: Seq<char>) -> Seq<char> {
    let at = index_of_seq(raw, scheme_mark(), 0);
    if at < raw.len() {
        raw.skip(at + 3)
    } else {
        raw
    }
}

/// The host of a target: its text after the scheme, up to the first `/`.
pub open spec fn host_of(raw: Seq<char>) -> Seq<char> {
    let rest = after_scheme(raw);
    rest.take(index_of(rest, '/', 0))
}

/// The text from which path and query are read: what follows the first `/` after the
/// scheme, or the host text when no `/` follows the scheme.
pub open spec fn path_text(raw: Seq<char>) -> Seq<char> {
    let rest = after_scheme(raw);
    let slash = index_of(rest, '/', 0);
    if slash < rest.len() {
        rest.skip(slash + 1)
    } else {
        rest
    }
}

/// The parts of the target `raw`.
pub open spec fn decompose(raw: Seq<char>) -> UrlView {
    let text = path_text(raw);
    let mark = index_of(text, '?', 0);
    UrlView {
        raw,
        scheme: scheme_of(raw),
        host: host_of(raw),
        path: text.take(mark),
        query: if mark < text.len() {
            Some(text.skip(mark + 1))
        } else {
            None
        },
    }
}

impl CurlUrl {
    /// Splits the characters of a target into scheme, host, path and query.
    pub fn from_chars(raw: &Vec<char>) -> (url: CurlUrl)
        ensures
            url@ == decompose(raw@),
    {
        let n = raw.len();
        let mut mark: Vec<char> = Vec::new();
        mark.push(':');
        mark.push('/');
        mark.push('/');
        assert(mark@ == scheme_mark());
        let at = find_seq(raw, &mark, 0);
        proof {
            crate::text::lemma_index_of_seq(raw@, scheme_mark(), 0);
        }
        let scheme = if at < n {
            Some(string_of(raw, 0, at))
        } else {
            None
        };
        let begin: usize = if at < n {
            at + 3
        } else {
            0
        };
        let ghost rest = after_scheme(raw@);
        assert(rest == raw@.subrange(begin as int, n as int));
        let slash = find_char(raw, '/', begin);
        proof {
            lemma_index_of_shift(raw@, '/', begin as int, begin as int);
        }
        assert(slash - begin == index_of(rest, '/', 0));
        let host = string_of(raw, begin, slash);
        assert(raw@.subrange(begin as int, slash as int) == rest.take(slash - begin));
        let from: usize = if slash < n {
            slash + 1
        } else {
            begin
        };
        let ghost text = path_text(raw@);
        assert(text == raw@.subrange(from as int, n as int));
        let question = find_char(raw, '?', from);
        proof {
            lemma_index_of_shift(raw@, '?', from as int, from as int);
        }
        assert(question - from == index_of(text, '?', 0));
        let path = string_of(raw, from, question);
        assert(raw@.subrange(from as int, question as int) == text.take(question - from));
        let query = if question < n {
            assert(raw@.subrange(question + 1, n as int) == text.skip(question - from + 1));
            Some(string_of(raw, question + 1, n))
        } else {
            None
        };
        let url = CurlUrl { raw: to_string(raw), scheme, host, path, query };
        assert(url@.scheme == scheme_of(raw@)) by {
            if at < n {
                assert(raw@.subrange(0, at as int) == raw@.take(at as int));
            }
        }
        url
    }

    /// Splits a target into scheme, host, path and query.
    ///
    /// `https://example.com/a/b?x=1` gives the scheme `https`, the host `example.com`,
    /// the path `a/b` and the query `x=1`; `example.com` alone gives no scheme and no
    /// query, and `example.com` as both host and path.
    pub fn parse(raw: &str) -> (url: CurlUrl)
        ensures
            url@ == decompose(raw@),
    {
        let chars = chars_of(raw);
        CurlUrl::from_chars(&chars)
    }
}

/// Searching a suffix of `s` finds the same place as searching `s` from where the suffix
/// begins.
pub proof fn lemma_index_of_shift(s: Seq<char>, c: char, begin: int, from: int)
    requires
        0 <= begin <= from <= s.len(),
    ensures
        index_of(s, c, from) - begin == index_of(s.skip(begin), c, from - begin),
    decreases s.len() - from,
{
    if from < s.len() && s[from] != c {
        lemma_index_of_shift(s, c, begin, from + 1);
    }
}

/// A target that is written as a scheme without a colon, `://` and a remainder has
/// that scheme, and host, path and query are read from the remainder.
pub proof fn law_scheme_is_split_off(scheme: Seq<char>, rest: Seq<char>)
    requires
        forall|k: int| 0 <= k < scheme.len() ==> scheme[k] != ':',
    ensures
        scheme_of(scheme + scheme_mark() + rest) == Some(scheme),
        after_scheme(scheme + scheme_mark() + rest) == rest,
{
    let raw = scheme + scheme_mark() + rest;
    let n = scheme.len() as int;
    crate::text::lemma_index_of_seq(raw, scheme_mark(), 0);
    let at = index_of_seq(raw, scheme_mark(), 0);
    assert(raw.skip(n).subrange(0, 3) == scheme_mark());
    assert(scheme_mark().is_prefix_of(raw.skip(n)));
    if at < n {
        assert(raw.skip(at)[0] == scheme_mark()[0]);
        assert(raw[at] == scheme[at]);
    }
    assert(at == n);
    assert(raw.take(n) == scheme);
    assert(raw.skip(n + 3) == rest);
}

/// A target that begins with `http://` has the scheme `http`, and one that begins with
/// `https://` has the scheme `https`.
pub proof fn law_http_scheme(raw: Seq<char>)
    ensures
        "http://"@.is_prefix_of(raw) ==> decompose(raw).scheme == Some("http"@),
        "https://"@.is_prefix_of(raw) ==> decompose(raw).scheme == Some("https"@),
{
    reveal_strlit("http://");
    reveal_strlit("https://");
    reveal_strlit("http");
    reveal_strlit("https");
    if "http://"@.is_prefix_of(raw) {
        assert("http://"@ == "http"@ + scheme_mark());
        law_scheme_is_split_off("http"@, raw.skip(7));
        assert(raw == "http"@ + scheme_mark() + raw.skip(7)) by {
            assert(raw.subrange(0, 7) == "http://"@);
            assert(raw == raw.subrange(0, 7) + raw.skip(7));
        }
    }
    if "https://"@.is_prefix_of(raw) {
        assert("https://"@ == "https"@ + scheme_mark());
        law_scheme_is_split_off("https"@, raw.skip(8));
        assert(raw == "https"@ + scheme_mark() + raw.skip(8)) by {
            assert(raw.subrange(0, 8) == "https://"@);
            assert(raw == raw.subrange(0, 8) + raw.skip(8));
        }
    }
}

/// A target with no `/` after its scheme has its host also as the text of its path: with
/// no `?` either, host and path are the same.
pub proof fn law_path_defaults_to_host(raw: Seq<char>)
    requires
        forall|k: int| 0 <= k < after_scheme(raw).len() ==> after_scheme(raw)[k] != '/',
    ensures
        decompose(raw).host == after_scheme(raw),
        path_text(raw) == decompose(raw).host,
        (forall|k: int| 0 <= k < after_scheme(raw).len() ==> after_scheme(raw)[k] != '?')
            ==> decompose(raw).path == decompose(raw).host && decompose(raw).query is None,
{
    let rest = after_scheme(raw);
    crate::text::lemma_index_of(rest, '/', 0);
    assert(rest.take(rest.len() as int) == rest);
    crate::text::lemma_index_of(rest, '?', 0);
}

} // verus!
