//! From the text of a command to its words.
//!
//! A command is first made one logical line: a backslash that ends a line joins it to the
//! next. The line is then cut into tokens at separators that stand outside quotations.

use vstd::prelude::*;
use crate::curl::error::CurlError;
use crate::text::{is_space, is_space_char};

verus! {

/// How a token was written.
#[derive(Debug, Clone, Copy, PartialEq, Eq, Structural)]
pub enum Quoting {
    /// No part of the token stands in quotes.
    Unquoted,
    /// The first quoted part of the token stands in single quotes.
    Single,
    /// The first quoted part of the token stands in double quotes.
    Double,
}

/// One word of a command.
#[derive(Debug, Clone, PartialEq, Eq)]
pub struct Token {
    /// The characters the token stands for: quotes taken off, escapes resolved.
    pub value: Vec<char>,
    /// How the token was written.
    pub quoting: Quoting,
    /// Where the token begins in the logical line.
    pub start: usize,
    /// Where the token ends in the logical line: the index after its last character.
    pub end: usize,
}

/// The mathematical value of a [`Token`].
pub struct TokenView {
    pub value: Seq<char>,
    pub quoting: Quoting,
    pub start: int,
    pub end: int,
}

impl View for Token {
    type V = TokenView;

    open spec fn view(&self) -> TokenView {
        TokenView {
            value: self.value@,
            quoting: self.quoting,
            start: self.start as int,
            end: self.end as int,
        }
    }
}

/// The views of the tokens of `tokens`, in order.
pub open spec fn token_views(tokens: Seq<Token>) -> Seq<TokenView> {
    tokens.map_values(|t: Token| t@)
}

/// The logical line of `text`, read from index `i` on: each backslash that is directly
/// followed by a line feed becomes, together with it, one space; every other character
/// stays.
pub open spec fn joined_from(text: Seq<char>, i: int) -> Seq<char>
    decreases text.len() - i,
{
    if i < 0 || i >= text.len() {
        Seq::empty()
    } else if text[i] == '\\' && i + 1 < text.len() && text[i + 1] == '\n' {
        seq![' '] + joined_from(text, i + 2)
    } else {
        seq![text[i]] + joined_from(text, i + 1)
    }
}

/// The logical line of `text`.
pub open spec fn joined(text: Seq<char>) -> Seq<char> {
    joined_from(text, 0)
}

/// Whether `c` opens and closes a quotation.
pub open spec fn is_quote(c: char) -> bool {
    c == '\'' || c == '"'
}

/// The quoting of a token of quoting `kind` in which a quotation opens with `c`.
pub open spec fn quoting_with(kind: Quoting, c: char) -> Quoting {
    if kind != Quoting::Unquoted {
        kind
    } else if c == '\'' {
        Quoting::Single
    } else {
        Quoting::Double
    }
}

/// The token that began at `start`, read on from index `i`.
///
/// `quote` is the character that opened the quotation around index `i`, if `i` stands in
/// one; `kind` and `value` are the quoting and the value gathered between `start` and `i`.
/// Outside a quotation a separator or the end of the line ends the token, a quote opens a
/// quotation, and any other character belongs to the value. Inside a quotation the
/// opening quote closes it, a backslash makes the next character part of the value
/// whatever it is, and any other character belongs to the value. `None` when the line
/// ends inside a quotation.
pub open spec fn scan(
    line: Seq<char>,
    start: int,
    i: int,
    quote: Option<char>,
    kind: Quoting,
    value: Seq<char>,
) -> Option<TokenView>
    decreases line.len() - i,
{
    if i < 0 || i >= line.len() {
        match quote {
            None => Some(TokenView { value, quoting: kind, start, end: i }),
            Some(_) => None,
        }
    } else {
        match quote {
            None => {
                if is_space(line[i]) {
                    Some(TokenView { value, quoting: kind, start, end: i })
                } else if is_quote(line[i]) {
                    scan(line, start, i + 1, Some(line[i]), quoting_with(kind, line[i]), value)
                } else {
                    scan(line, start, i + 1, None, kind, value.push(line[i]))
                }
            },
            Some(q) => {
                if line[i] == q {
                    scan(line, start, i + 1, None, kind, value)
                } else if line[i] == '\\' {
                    if i + 1 < line.len() {
                        scan(line, start, i + 2, quote, kind, value.push(line[i + 1]))
                    } else {
                        None
                    }
                } else {
                    scan(line, start, i + 1, quote, kind, value.push(line[i]))
                }
            },
        }
    }
}

/// The token of `line` that begins at `start`.
pub open spec fn token_at(line: Seq<char>, start: int) -> Option<TokenView> {
    scan(line, start, start, None, Quoting::Unquoted, Seq::empty())
}

/// The first index at or after `i` that holds no separator, or the length of `line`.
pub open spec fn skip_spaces(line: Seq<char>, i: int) -> int
    decreases line.len() - i,
{
    if 0 <= i < line.len() && is_space(line[i]) {
        skip_spaces(line, i + 1)
    } else {
        i
    }
}

/// The tokens of `line` from index `i` on; `None` when one of them is left unterminated.
pub open spec fn tokens_from(line: Seq<char>, i: int) -> Option<Seq<TokenView>>
    decreases line.len() - i,
{
    let start = skip_spaces(line, i);
    if i < 0 || start >= line.len() {
        Some(Seq::empty())
    } else {
        match token_at(line, start) {
            None => None,
            Some(token) => {
                proof {
                    lemma_skip_spaces(line, i);
                    lemma_scan_end(line, start, start, None, Quoting::Unquoted, Seq::empty());
                }
                match tokens_from(line, token.end) {
                    None => None,
                    Some(rest) => Some(seq![token] + rest),
                }
            },
        }
    }
}

/// The tokens of a logical line; `None` when a quotation is left open.
pub open spec fn tokens_of(line: Seq<char>) -> Option<Seq<TokenView>> {
    tokens_from(line, 0)
}

/// [`skip_spaces`] passes over separators only and stops at the first other character.
pub proof fn lemma_skip_spaces(line: Seq<char>, i: int)
    requires
        0 <= i,
    ensures
        i <= skip_spaces(line, i),
        i <= line.len() ==> skip_spaces(line, i) <= line.len(),
        forall|k: int| i <= k < skip_spaces(line, i) ==> is_space(line[k]),
        skip_spaces(line, i) < line.len() ==> !is_space(line[skip_spaces(line, i)]),
    decreases line.len() - i,
{
    if i < line.len() && is_space(line[i]) {
        lemma_skip_spaces(line, i + 1);
    }
}

/// A token ends inside the line, not before the place it was read from, and after its
/// first character.
pub proof fn lemma_scan_end(
    line: Seq<char>,
    start: int,
    i: int,
    quote: Option<char>,
    kind: Quoting,
    value: Seq<char>,
)
    requires
        0 <= i <= line.len(),
    ensures
        scan(line, start, i, quote, kind, value) matches Some(token) ==> {
            &&& token.start == start
            &&& i <= token.end <= line.len()
            &&& (i < line.len() && (quote is Some || !is_space(line[i])) ==> i < token.end)
        },
    decreases line.len() - i,
{
    if i < line.len() {
        match quote {
            None => {
                if is_space(line[i]) {
                } else if is_quote(line[i]) {
                    lemma_scan_end(
                        line,
                        start,
                        i + 1,
                        Some(line[i]),
                        quoting_with(kind, line[i]),
                        value,
                    );
                } else {
                    lemma_scan_end(line, start, i + 1, None, kind, value.push(line[i]));
                }
            },
            Some(q) => {
                if line[i] == q {
                    lemma_scan_end(line, start, i + 1, None, kind, value);
                } else if line[i] == '\\' {
                    if i + 1 < line.len() {
                        lemma_scan_end(line, start, i + 2, quote, kind, value.push(line[i + 1]));
                    }
                } else {
                    lemma_scan_end(line, start, i + 1, quote, kind, value.push(line[i]));
                }
            },
        }
    }
}

/// Makes one logical line of `text`: a backslash directly before a line feed becomes,
/// together with it, one space.
pub fn join_lines(text: &Vec<char>) -> (line: Vec<char>)
    ensures
        line@ == joined(text@),
{
    let mut line: Vec<char> = Vec::new();
    let mut i: usize = 0;
    while i < text.len()
        invariant
            i <= text.len(),
            joined(text@) == line@ + joined_from(text@, i as int),
        decreases text.len() - i,
    {
        let ghost before = line@;
        if text[i] == '\\' && i + 1 < text.len() && text[i + 1] == '\n' {
            line.push(' ');
            assert(before + (seq![' '] + joined_from(text@, i + 2)) == line@ + joined_from(
                text@,
                i + 2,
            ));
            i += 2;
        } else {
            line.push(text[i]);
            assert(before + (seq![text@[i as int]] + joined_from(text@, i + 1)) == line@
                + joined_from(text@, i + 1));
            i += 1;
        }
    }
    assert(line@ + Seq::<char>::empty() == line@);
    line
}

/// Reads the token that begins at `start`.
pub fn read_token(line: &Vec<char>, start: usize) -> (r: Option<Token>)
    requires
        start < line.len(),
    ensures
        match token_at(line@, start as int) {
            Some(token) => r matches Some(t) && t@ == token,
            None => r is None,
        },
{
    let mut value: Vec<char> = Vec::new();
    let mut kind = Quoting::Unquoted;
    let mut quote: Option<char> = None;
    let mut i: usize = start;
    while i < line.len()
        invariant
            start <= i <= line.len(),
            token_at(line@, start as int) == scan(line@, start as int, i as int, quote, kind, value@),
        decreases line.len() - i,
    {
        let c = line[i];
        match quote {
            None => {
                if is_space_char(c) {
                    return Some(Token { value, quoting: kind, start, end: i });
                } else if c == '\'' || c == '"' {
                    if kind == Quoting::Unquoted {
                        kind = if c == '\'' {
                            Quoting::Single
                        } else {
                            Quoting::Double
                        };
                    }
                    quote = Some(c);
                    i += 1;
                } else {
                    value.push(c);
                    i += 1;
                }
            },
            Some(q) => {
                if c == q {
                    quote = None;
                    i += 1;
                } else if c == '\\' {
                    if i + 1 < line.len() {
                        value.push(line[i + 1]);
                        i += 2;
                    } else {
                        return None;
                    }
                } else {
                    value.push(c);
                    i += 1;
                }
            },
        }
    }
    match quote {
        None => Some(Token { value, quoting: kind, start, end: i }),
        Some(_) => None,
    }
}

/// Cuts a logical line into its tokens.
///
/// Fails with [`CurlError::UnterminatedQuote`] exactly when a quotation is left open;
/// no token is returned then.
pub fn tokenize(line: &Vec<char>) -> (r: Result<Vec<Token>, CurlError>)
    ensures
        match tokens_of(line@) {
            Some(tokens) => r matches Ok(ts) && token_views(ts@) == tokens,
            None => r == Err::<Vec<Token>, CurlError>(CurlError::UnterminatedQuote),
        },
{
    let mut tokens: Vec<Token> = Vec::new();
    let mut i: usize = 0;
    loop
        invariant
            i <= line.len(),
            tokens_of(line@) == match tokens_from(line@, i as int) {
                Some(rest) => Some(token_views(tokens@) + rest),
                None => None,
            },
        decreases line.len() - i,
    {
        let ghost from = i;
        while i < line.len() && is_space_char(line[i])
            invariant
                from <= i <= line.len(),
                skip_spaces(line@, from as int) == skip_spaces(line@, i as int),
            decreases line.len() - i,
        {
            i += 1;
        }
        if i >= line.len() {
            assert(token_views(tokens@) + Seq::<TokenView>::empty() == token_views(tokens@));
            return Ok(tokens);
        }
        proof {
            lemma_scan_end(line@, i as int, i as int, None, Quoting::Unquoted, Seq::empty());
        }
        match read_token(line, i) {
            None => {
                return Err(CurlError::UnterminatedQuote);
            },
            Some(token) => {
                let ghost before = token_views(tokens@);
                let ghost rest = tokens_from(line@, token.end as int);
                i = token.end;
                tokens.push(token);
                assert(token_views(tokens@) == before.push(token@));
                assert(rest matches Some(r) ==> before + (seq![token@] + r) == token_views(
                    tokens@,
                ) + r);
            },
        }
    }
}

} // verus!
