//! The options that a curl command may carry, as a table.
//!
//! Each entry maps the name of an option to a small record: the category of the element
//! that the option becomes, and whether the option takes a value. The parser consults the
//! table and holds no option name of its own.

use vstd::prelude::*;
use crate::text::{chars_of, starts_with};

verus! {

/// The kind of element that an option becomes.
#[derive(Debug, Clone, Copy, PartialEq, Eq, Structural)]
pub enum Category {
    /// The option sets the request method.
    Method,
    /// The option adds a header line.
    Header,
    /// The option adds a part of the request body.
    Data,
    /// Any other option.
    Flag,
}

/// Whether an option stands alone or takes a value.
#[derive(Debug, Clone, Copy, PartialEq, Eq, Structural)]
pub enum Arity {
    /// The option is a switch: it never has a value.
    Switch,
    /// The option takes one value.
    Value,
}

/// One entry of the table: the name of an option and what is known of it.
#[derive(Debug, Clone, PartialEq, Eq)]
pub struct OptionSpec {
    /// The name as it is written in a command, dashes included.
    pub name: Vec<char>,
    /// The kind of element that the option becomes.
    pub category: Category,
    /// Whether the option takes a value. Only a flag can be a switch: a method, a header
    /// and a piece of data always take one.
    pub arity: Arity,
}

/// The mathematical value of an [`OptionSpec`].
pub struct OptionView {
    pub name: Seq<char>,
    pub category: Category,
    pub arity: Arity,
}

impl View for OptionSpec {
    type V = OptionView;

    open spec fn view(&self) -> OptionView {
        OptionView { name: self.name@, category: self.category, arity: self.arity }
    }
}

/// A table of options.
#[derive(Debug, Clone, PartialEq, Eq)]
pub struct OptionTable {
    /// The entries, in the order in which they were added.
    pub entries: Vec<OptionSpec>,
}

impl View for OptionTable {
    type V = Seq<OptionView>;

    open spec fn view(&self) -> Seq<OptionView> {
        self.entries@.map_values(|e: OptionSpec| e@)
    }
}

/// Whether the option of entry `e` takes a value.
pub open spec fn takes_value(e: OptionView) -> bool {
    e.category != Category::Flag || e.arity == Arity::Value
}

/// Whether `name` is a short name: one dash and one other character.
pub open spec fn is_short(name: Seq<char>) -> bool {
    name.len() == 2 && name[0] == '-' && name[1] != '-'
}

/// Whether `token` is a way of writing the option of entry `e`.
///
/// The token begins with the name. It is the name alone; or the option takes a value
/// and the name is followed by `=`; or the option takes a value, its name is short, and
/// the value follows the name directly.
pub open spec fn recognizes(e: OptionView, token: Seq<char>) -> bool {
    &&& e.name.is_prefix_of(token)
    &&& (token.len() == e.name.len() || (takes_value(e) && (token[e.name.len() as int] == '='
        || is_short(e.name))))
}

/// The entry with the longest name among the first `n` entries that recognize `token`;
/// of several with names of that length, the first.
pub open spec fn best_match(table: Seq<OptionView>, token: Seq<char>, n: int) -> Option<int>
    decreases n,
{
    if n <= 0 {
        None
    } else {
        let before = best_match(table, token, n - 1);
        if recognizes(table[n - 1], token) && (before matches Some(k) ==> table[k].name.len()
            < table[n - 1].name.len()) {
            Some(n - 1)
        } else {
            before
        }
    }
}

/// The entry of `table` that `token` is read by, if there is one.
pub open spec fn lookup(table: Seq<OptionView>, token: Seq<char>) -> Option<int> {
    best_match(table, token, table.len() as int)
}

/// What is asked of a table for the laws of the parser to hold: every name begins with
/// a dash and no name stands twice.
pub open spec fn well_formed(table: Seq<OptionView>) -> bool {
    &&& forall|i: int|
        0 <= i < table.len() ==> (#[trigger] table[i]).name.len() > 0 && table[i].name[0] == '-'
    &&& forall|i: int, j: int|
        0 <= i < j < table.len() ==> (#[trigger] table[i]).name != (#[trigger] table[j]).name
}

/// [`best_match`] finds an entry exactly when one of the first `n` recognizes the token,
/// and no such entry has a longer name than the one found.
pub proof fn lemma_best_match(table: Seq<OptionView>, token: Seq<char>, n: int)
    requires
        0 <= n <= table.len(),
    ensures
        match best_match(table, token, n) {
            Some(k) => {
                &&& 0 <= k < n
                &&& recognizes(table[k], token)
                &&& forall|j: int|
                    0 <= j < n && recognizes(#[trigger] table[j], token) ==> table[j].name.len()
                        <= table[k].name.len()
            },
            None => forall|j: int| 0 <= j < n ==> !recognizes(#[trigger] table[j], token),
        },
    decreases n,
{
    if n > 0 {
        lemma_best_match(table, token, n - 1);
    }
}

impl OptionSpec {
    /// An entry for the option written `name`.
    pub fn new(name: &str, category: Category, arity: Arity) -> (e: OptionSpec)
        ensures
            e@ == (OptionView { name: name@, category, arity }),
    {
        OptionSpec { name: chars_of(name), category, arity }
    }

    /// Whether the option takes a value.
    pub fn takes_value(&self) -> (b: bool)
        ensures
            b == takes_value(self@),
    {
        self.category != Category::Flag || self.arity == Arity::Value
    }

    /// Whether `token` is a way of writing this option.
    pub fn recognizes(&self, token: &Vec<char>) -> (b: bool)
        ensures
            b == recognizes(self@, token@),
    {
        if !starts_with(token, &self.name) {
            return false;
        }
        let n = self.name.len();
        if token.len() == n {
            return true;
        }
        if !self.takes_value() {
            return false;
        }
        token[n] == '=' || (n == 2 && self.name[0] == '-' && self.name[1] != '-')
    }
}

impl OptionTable {
    /// The entry that `token` is read by: of the entries that recognize it, the one with
    /// the longest name.
    pub fn lookup(&self, token: &Vec<char>) -> (r: Option<usize>)
        ensures
            match lookup(self@, token@) {
                Some(k) => r == Some(k as usize) && 0 <= k < self.entries.len(),
                None => r is None,
            },
    {
        let mut best: Option<usize> = None;
        let mut i: usize = 0;
        while i < self.entries.len()
            invariant
                i <= self.entries.len(),
                self@.len() == self.entries.len(),
                match best_match(self@, token@, i as int) {
                    Some(k) => best == Some(k as usize) && 0 <= k < i,
                    None => best is None,
                },
            decreases self.entries.len() - i,
        {
            assert(self@[i as int] == self.entries[i as int]@);
            if self.entries[i].recognizes(token) {
                let longer = match best {
                    Some(k) => {
                        assert(self@[k as int] == self.entries[k as int]@);
                        self.entries[k].name.len() < self.entries[i].name.len()
                    },
                    None => true,
                };
                if longer {
                    best = Some(i);
                }
            }
            i += 1;
        }
        best
    }
}

/// The entry that maps `name` to `category` and `arity`.
pub open spec fn entry(name: Seq<char>, category: Category, arity: Arity) -> OptionView {
    OptionView { name, category, arity }
}

/// The options of curl that this crate knows by name.
///
/// `-X` and `--request` set the method; `-H` and `--header` add a header; `-d`, `--data`,
/// `--data-raw`, `--data-urlencode` and `--data-binary` add data. Of the flags, `-k`, `-L`,
/// `-v`, `--insecure` and `--retry-all-errors` are switches, and `-o`, `-x`, `--cert`,
/// `--key`, `--cacert`, `--output` and `--max-time` take a value.
pub open spec fn curl_options_view() -> Seq<OptionView> {
    seq![
        entry("-X"@, Category::Method, Arity::Value),
        entry("--request"@, Category::Method, Arity::Value),
        entry("-H"@, Category::Header, Arity::Value),
        entry("--header"@, Category::Header, Arity::Value),
        entry("-d"@, Category::Data, Arity::Value),
        entry("--data"@, Category::Data, Arity::Value),
        entry("--data-raw"@, Category::Data, Arity::Value),
        entry("--data-urlencode"@, Category::Data, Arity::Value),
        entry("--data-binary"@, Category::Data, Arity::Value),
        entry("-k"@, Category::Flag, Arity::Switch),
        entry("-L"@, Category::Flag, Arity::Switch),
        entry("-v"@, Category::Flag, Arity::Switch),
        entry("--insecure"@, Category::Flag, Arity::Switch),
        entry("--retry-all-errors"@, Category::Flag, Arity::Switch),
        entry("-o"@, Category::Flag, Arity::Value),
        entry("-x"@, Category::Flag, Arity::Value),
        entry("--cert"@, Category::Flag, Arity::Value),
        entry("--key"@, Category::Flag, Arity::Value),
        entry("--cacert"@, Category::Flag, Arity::Value),
        entry("--output"@, Category::Flag, Arity::Value),
        entry("--max-time"@, Category::Flag, Arity::Value),
    ]
}

/// The table of the options of curl that this crate knows by name.
pub fn curl_options() -> (table: OptionTable)
    ensures
        table@ == curl_options_view(),
{
    let mut entries: Vec<OptionSpec> = Vec::new();
    entries.push(OptionSpec::new("-X", Category::Method, Arity::Value));
    entries.push(OptionSpec::new("--request", Category::Method, Arity::Value));
    entries.push(OptionSpec::new("-H", Category::Header, Arity::Value));
    entries.push(OptionSpec::new("--header", Category::Header, Arity::Value));
    entries.push(OptionSpec::new("-d", Category::Data, Arity::Value));
    entries.push(OptionSpec::new("--data", Category::Data, Arity::Value));
    entries.push(OptionSpec::new("--data-raw", Category::Data, Arity::Value));
    entries.push(OptionSpec::new("--data-urlencode", Category::Data, Arity::Value));
    entries.push(OptionSpec::new("--data-binary", Category::Data, Arity::Value));
    entries.push(OptionSpec::new("-k", Category::Flag, Arity::Switch));
    entries.push(OptionSpec::new("-L", Category::Flag, Arity::Switch));
    entries.push(OptionSpec::new("-v", Category::Flag, Arity::Switch));
    entries.push(OptionSpec::new("--insecure", Category::Flag, Arity::Switch));
    entries.push(OptionSpec::new("--retry-all-errors", Category::Flag, Arity::Switch));
    entries.push(OptionSpec::new("-o", Category::Flag, Arity::Value));
    entries.push(OptionSpec::new("-x", Category::Flag, Arity::Value));
    entries.push(OptionSpec::new("--cert", Category::Flag, Arity::Value));
    entries.push(OptionSpec::new("--key", Category::Flag, Arity::Value));
    entries.push(OptionSpec::new("--cacert", Category::Flag, Arity::Value));
    entries.push(OptionSpec::new("--output", Category::Flag, Arity::Value));
    entries.push(OptionSpec::new("--max-time", Category::Flag, Arity::Value));
    let table = OptionTable { entries };
    assert(table@ =~= curl_options_view());
    table
}

/// The names of the table of curl options, character by character.
pub proof fn lemma_curl_option_names()
    ensures
        curl_options_view().len() == 21,
        well_formed(curl_options_view()),
{
    reveal_strlit("-X");
    reveal_strlit("--request");
    reveal_strlit("-H");
    reveal_strlit("--header");
    reveal_strlit("-d");
    reveal_strlit("--data");
    reveal_strlit("--data-raw");
    reveal_strlit("--data-urlencode");
    reveal_strlit("--data-binary");
    reveal_strlit("-k");
    reveal_strlit("-L");
    reveal_strlit("-v");
    reveal_strlit("--insecure");
    reveal_strlit("--retry-all-errors");
    reveal_strlit("-o");
    reveal_strlit("-x");
    reveal_strlit("--cert");
    reveal_strlit("--key");
    reveal_strlit("--cacert");
    reveal_strlit("--output");
    reveal_strlit("--max-time");
    let table = curl_options_view();
    assert forall|i: int, j: int| 0 <= i < j < table.len() implies (#[trigger] table[i]).name != (
    #[trigger] table[j]).name by {
        if table[i].name.len() == table[j].name.len() {
            assert(table[i].name[1] != table[j].name[1] || table[i].name[2] != table[j].name[2]
                || table[i].name[3] != table[j].name[3]);
        }
    }
}

} // verus!
