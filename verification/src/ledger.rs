//! A ledger: lines such as `    CREDIT    04062020    PayPal transfer    $4.99`, one
//! transaction each.
//!
//! Each line is indented. Its date is read field by field, into month, day and year,
//! and its amount may be any number with a sign, a fraction and an exponent; an amount
//! that breaks off inside its exponent ends the reading of the whole ledger. For single
//! lines that are not indented, see [`crate::transaction`].

use vstd::prelude::*;
use vstd::string::StringExecFns;
use crate::float::{double_spec, take_double, Halt, Parsed};
use crate::scan::{
    after_tag,
    decimal,
    leading_digits,
    part_of,
    rest_from,
    same_text,
    skip_class,
    skip_run,
    take_chars,
    take_class1,
    take_count,
    take_run1,
    take_tag,
    take_unsigned,
    take_until0,
    trim_text,
    until0,
    NoMatch,
};
use crate::text::{chars_of, lemma_run, trim, CharClass};

verus! {

/// One line of a ledger.
#[derive(Debug, Clone, PartialEq, Eq)]
pub struct Transaction {
    pub kind: TransactionKind,
    pub date: Date,
    pub description: String,
    /// The amount, as the text that writes it, such as `4.99`.
    pub amount: String,
}

/// Whether money came in or went out.
#[derive(Debug, Clone, Copy, PartialEq, Eq, Structural)]
pub enum TransactionKind {
    CREDIT,
    DEBIT,
    Unknown,
}

/// A day of the calendar.
#[derive(Debug, Clone, Copy, PartialEq, Eq, Structural)]
pub struct Date {
    pub month: u8,
    pub day: u8,
    pub year: u16,
}

/// The mathematical value of a [`Transaction`].
pub struct TransactionView {
    pub kind: TransactionKind,
    pub date: Date,
    pub description: Seq<char>,
    pub amount: Seq<char>,
}

impl View for Transaction {
    type V = TransactionView;

    open spec fn view(&self) -> TransactionView {
        TransactionView {
            kind: self.kind,
            date: self.date,
            description: self.description@,
            amount: self.amount@,
        }
    }
}

/// The views of the transactions of `list`, in order.
pub open spec fn transaction_views(list: Seq<Transaction>) -> Seq<TransactionView> {
    list.map_values(|t: Transaction| t@)
}

/// The number that the first `width` characters of `s` begin with, and what follows
/// those characters: the digits that lead them, one at least.
pub open spec fn number_in(s: Seq<char>, width: int) -> Option<(Seq<char>, int)> {
    match take_count(s, width) {
        None => None,
        Some((rest, field)) => if leading_digits(field).len() > 0 {
            Some((rest, decimal(leading_digits(field)) as int))
        } else {
            None
        },
    }
}

/// The date that `s` begins with, and what follows it: month and day in two characters
/// each, the year in four.
pub open spec fn date_spec(s: Seq<char>) -> Option<(Seq<char>, Date)> {
    match number_in(s, 2) {
        None => None,
        Some((s1, month)) => match number_in(s1, 2) {
            None => None,
            Some((s2, day)) => match number_in(s2, 4) {
                None => None,
                Some((rest, year)) => Some(
                    (rest, Date { month: month as u8, day: day as u8, year: year as u16 }),
                ),
            },
        },
    }
}

/// The kind that the word `word` names.
pub open spec fn kind_of(word: Seq<char>) -> TransactionKind {
    if word == "CREDIT"@ {
        TransactionKind::CREDIT
    } else if word == "DEBIT"@ {
        TransactionKind::DEBIT
    } else {
        TransactionKind::Unknown
    }
}

/// The kind that `s` begins with, and what follows it: the letters that lead `s`, one
/// at least, read as a word.
pub open spec fn kind_spec(s: Seq<char>) -> Option<(Seq<char>, TransactionKind)> {
    match take_run1(s, CharClass::Alpha) {
        None => None,
        Some((rest, word)) => Some((rest, kind_of(word))),
    }
}

/// The description that `s` begins with, and what stands from the first `$` on: what
/// stands before that `$`, trimmed of white space.
pub open spec fn description_spec(s: Seq<char>) -> Option<(Seq<char>, Seq<char>)> {
    match take_until0(s, seq!['$']) {
        None => None,
        Some((rest, text)) => Some((rest, trim(text, CharClass::Whitespace))),
    }
}

/// The amount that `s` begins with, and what follows it: a `$` and a number.
pub open spec fn amount_spec(s: Seq<char>) -> Parsed<Seq<char>> {
    match after_tag(s, seq!['$']) {
        None => Parsed::NoMatch,
        Some(rest) => double_spec(rest),
    }
}

/// The transaction that `s` begins with, and what follows it: after line feeds and
/// blanks, one at least, a kind, a date, a description and an amount, with blanks, one at
/// least, after kind and date; then line feeds.
pub open spec fn transaction_spec(s: Seq<char>) -> Parsed<TransactionView> {
    match take_run1(skip_run(s, CharClass::LineFeed), CharClass::Blank) {
        None => Parsed::NoMatch,
        Some((s1, _)) => match kind_spec(s1) {
            None => Parsed::NoMatch,
            Some((s2, kind)) => match take_run1(s2, CharClass::Blank) {
                None => Parsed::NoMatch,
                Some((s3, _)) => match date_spec(s3) {
                    None => Parsed::NoMatch,
                    Some((s4, date)) => match take_run1(s4, CharClass::Blank) {
                        None => Parsed::NoMatch,
                        Some((s5, _)) => match description_spec(s5) {
                            None => Parsed::NoMatch,
                            Some((s6, description)) => match amount_spec(s6) {
                                Parsed::NoMatch => Parsed::NoMatch,
                                Parsed::Failure => Parsed::Failure,
                                Parsed::Match(s7, amount) => Parsed::Match(
                                    skip_run(s7, CharClass::LineFeed),
                                    TransactionView { kind, date, description, amount },
                                ),
                            },
                        },
                    },
                },
            },
        },
    }
}

/// The transactions that `s` begins with, after the first, as many as can be read, and
/// what follows them.
pub open spec fn more_transactions(s: Seq<char>) -> Parsed<Seq<TransactionView>>
    decreases s.len(),
{
    match transaction_spec(s) {
        Parsed::NoMatch => Parsed::Match(s, Seq::empty()),
        Parsed::Failure => Parsed::Failure,
        Parsed::Match(rest, first) => if rest.len() < s.len() {
            match more_transactions(rest) {
                Parsed::Match(end, more) => Parsed::Match(end, seq![first] + more),
                Parsed::NoMatch => Parsed::NoMatch,
                Parsed::Failure => Parsed::Failure,
            }
        } else {
            Parsed::NoMatch
        },
    }
}

/// The transactions that `s` begins with, one at least, and what follows them.
pub open spec fn transactions_spec(s: Seq<char>) -> Parsed<Seq<TransactionView>> {
    match transaction_spec(s) {
        Parsed::NoMatch => Parsed::NoMatch,
        Parsed::Failure => Parsed::Failure,
        Parsed::Match(rest, first) => match more_transactions(rest) {
            Parsed::Match(end, more) => Parsed::Match(end, seq![first] + more),
            Parsed::NoMatch => Parsed::NoMatch,
            Parsed::Failure => Parsed::Failure,
        },
    }
}

/// Reads the number that the first `width` characters begin with.
fn parse_field<'a>(input: &'a str, width: usize) -> (r: Result<(&'a str, u64), Halt>)
    requires
        width <= 4,
    ensures
        match number_in(input@, width as int) {
            Some((rest, value)) => r matches Ok((x, v)) && x@ == rest && v == value && v
                < pow10(width as nat) <= 10000,
            None => r == Err::<(&str, u64), Halt>(Halt::NoMatch),
        },
{
    let (rest, field) = match take_chars(input, width) {
        Ok(found) => found,
        Err(_) => {
            return Err(Halt::NoMatch);
        },
    };
    proof {
        let digits = leading_digits(field@);
        lemma_run(field@, CharClass::Digit);
        lemma_digits_bound(digits);
        lemma_pow10_grows(digits.len(), width as nat);
        reveal_with_fuel(pow10, 5);
    }
    match take_unsigned(field, 10000) {
        Ok((_, value)) => Ok((rest, value)),
        Err(_) => Err(Halt::NoMatch),
    }
}

/// Ten to the power of `n`.
pub open spec fn pow10(n: nat) -> nat
    decreases n,
{
    if n == 0 {
        1
    } else {
        10 * pow10((n - 1) as nat)
    }
}

/// A power of ten is at most any later one.
pub proof fn lemma_pow10_grows(m: nat, n: nat)
    requires
        m <= n,
    ensures
        pow10(m) <= pow10(n),
    decreases n,
{
    if m < n {
        lemma_pow10_grows(m, (n - 1) as nat);
    }
}

/// Digits write a number below the power of ten of their count.
pub proof fn lemma_digits_bound(digits: Seq<char>)
    requires
        forall|k: int| 0 <= k < digits.len() ==> CharClass::Digit.holds(digits[k]),
    ensures
        decimal(digits) < pow10(digits.len()),
    decreases digits.len(),
{
    if digits.len() > 0 {
        lemma_digits_bound(digits.drop_last());
    }
}

/// Reads a month: a number in two characters.
pub fn parse_month<'a>(input: &'a str) -> (r: Result<(&'a str, u8), Halt>)
    ensures
        match number_in(input@, 2) {
            Some((rest, value)) => r matches Ok((x, v)) && x@ == rest && v == value,
            None => r == Err::<(&str, u8), Halt>(Halt::NoMatch),
        },
{
    let (rest, value) = parse_field(input, 2)?;
    proof {
        reveal_with_fuel(pow10, 3);
    }
    Ok((rest, value as u8))
}

/// Reads a day: a number in two characters.
pub fn parse_day<'a>(input: &'a str) -> (r: Result<(&'a str, u8), Halt>)
    ensures
        match number_in(input@, 2) {
            Some((rest, value)) => r matches Ok((x, v)) && x@ == rest && v == value,
            None => r == Err::<(&str, u8), Halt>(Halt::NoMatch),
        },
{
    let (rest, value) = parse_field(input, 2)?;
    proof {
        reveal_with_fuel(pow10, 3);
    }
    Ok((rest, value as u8))
}

/// Reads a year: a number in four characters.
pub fn parse_year<'a>(input: &'a str) -> (r: Result<(&'a str, u16), Halt>)
    ensures
        match number_in(input@, 4) {
            Some((rest, value)) => r matches Ok((x, v)) && x@ == rest && v == value,
            None => r == Err::<(&str, u16), Halt>(Halt::NoMatch),
        },
{
    let (rest, value) = parse_field(input, 4)?;
    Ok((rest, value as u16))
}

/// Reads a date: month, day and year, as in `04062020`.
pub fn parse_date<'a>(input: &'a str) -> (r: Result<(&'a str, Date), Halt>)
    ensures
        match date_spec(input@) {
            Some((rest, date)) => r matches Ok((x, d)) && x@ == rest && d == date,
            None => r == Err::<(&str, Date), Halt>(Halt::NoMatch),
        },
{
    let (input, month) = parse_month(input)?;
    let (input, day) = parse_day(input)?;
    let (input, year) = parse_year(input)?;
    Ok((input, Date { month, day, year }))
}

/// Reads a kind: the letters that lead `input`, as the word `CREDIT` or `DEBIT`; any
/// other word is an unknown kind.
pub fn parse_kind<'a>(input: &'a str) -> (r: Result<(&'a str, TransactionKind), Halt>)
    ensures
        match kind_spec(input@) {
            Some((rest, kind)) => r matches Ok((x, k)) && x@ == rest && k == kind,
            None => r == Err::<(&str, TransactionKind), Halt>(Halt::NoMatch),
        },
{
    let (rest, word) = match take_class1(input, CharClass::Alpha) {
        Ok(found) => found,
        Err(_) => {
            return Err(Halt::NoMatch);
        },
    };
    let kind = if same_text(word, "CREDIT") {
        TransactionKind::CREDIT
    } else if same_text(word, "DEBIT") {
        TransactionKind::DEBIT
    } else {
        TransactionKind::Unknown
    };
    Ok((rest, kind))
}

/// Reads a description: what stands before the first `$`, trimmed of white space. The
/// `$` is left to be read.
pub fn parse_description<'a>(input: &'a str) -> (r: Result<(&'a str, &'a str), Halt>)
    ensures
        match description_spec(input@) {
            Some((rest, text)) => r matches Ok((x, t)) && x@ == rest && t@ == text,
            None => r == Err::<(&str, &str), Halt>(Halt::NoMatch),
        },
{
    let s = chars_of(input);
    assert(s@.skip(0) == s@);
    proof {
        reveal_strlit("$");
        assert("$"@ == seq!['$']);
    }
    match until0(&s, 0, "$") {
        None => Err(Halt::NoMatch),
        Some(at) => Ok((rest_from(input, at), trim_text(part_of(input, 0, at)))),
    }
}

/// Reads an amount: a `$` and a number, which is handed back as text.
pub fn parse_amount<'a>(input: &'a str) -> (r: Result<(&'a str, &'a str), Halt>)
    ensures
        match amount_spec(input@) {
            Parsed::Match(rest, amount) => r matches Ok((x, a)) && x@ == rest && a@ == amount,
            Parsed::NoMatch => r == Err::<(&str, &str), Halt>(Halt::NoMatch),
            Parsed::Failure => r == Err::<(&str, &str), Halt>(Halt::Failure),
        },
{
    proof {
        reveal_strlit("$");
        assert("$"@ == seq!['$']);
    }
    match take_tag(input, "$") {
        Err(_) => Err(Halt::NoMatch),
        Ok(rest) => take_double(rest),
    }
}

/// Passes over blanks, one at least.
fn blanks<'a>(input: &'a str) -> (r: Result<&'a str, Halt>)
    ensures
        match take_run1(input@, CharClass::Blank) {
            Some((rest, _)) => r matches Ok(x) && x@ == rest,
            None => r == Err::<&str, Halt>(Halt::NoMatch),
        },
{
    match take_class1(input, CharClass::Blank) {
        Ok((rest, _)) => Ok(rest),
        Err(_) => Err(Halt::NoMatch),
    }
}

/// Reads one transaction, with the line feeds before and after it.
pub fn parse_transaction<'a>(input: &'a str) -> (r: Result<(&'a str, Transaction), Halt>)
    ensures
        match transaction_spec(input@) {
            Parsed::Match(rest, transaction) => r matches Ok((x, t)) && x@ == rest && t@
                == transaction,
            Parsed::NoMatch => r == Err::<(&str, Transaction), Halt>(Halt::NoMatch),
            Parsed::Failure => r == Err::<(&str, Transaction), Halt>(Halt::Failure),
        },
{
    let input = skip_class(input, CharClass::LineFeed);
    let input = blanks(input)?;
    let (input, kind) = parse_kind(input)?;
    let input = blanks(input)?;
    let (input, date) = parse_date(input)?;
    let input = blanks(input)?;
    let (input, description) = parse_description(input)?;
    let (input, amount) = parse_amount(input)?;
    let input = skip_class(input, CharClass::LineFeed);
    let transaction = Transaction {
        kind,
        date,
        description: String::from_str(description),
        amount: String::from_str(amount),
    };
    Ok((input, transaction))
}

/// A transaction that is read uses up one character at least.
pub proof fn lemma_transaction_consumes(s: Seq<char>)
    ensures
        transaction_spec(s) matches Parsed::Match(rest, _) ==> rest.len() < s.len(),
{
    if let Parsed::Match(rest, _) = transaction_spec(s) {
        lemma_run(s, CharClass::LineFeed);
        let s0 = skip_run(s, CharClass::LineFeed);
        lemma_run(s0, CharClass::Blank);
        let s1 = take_run1(s0, CharClass::Blank).unwrap().0;
        lemma_run(s1, CharClass::Alpha);
        let s2 = kind_spec(s1).unwrap().0;
        lemma_run(s2, CharClass::Blank);
        let s3 = take_run1(s2, CharClass::Blank).unwrap().0;
        let s4 = date_spec(s3).unwrap().0;
        lemma_run(s4, CharClass::Blank);
        let s5 = take_run1(s4, CharClass::Blank).unwrap().0;
        crate::text::lemma_index_of_seq(s5, seq!['$'], 0);
        let s6 = description_spec(s5).unwrap().0;
        crate::float::lemma_double_shortens(s6.skip(1));
        let s7 = amount_spec(s6)->Match_0;
        lemma_run(s7, CharClass::LineFeed);
    }
}

/// Reads transactions one after another, one at least, until none can be read.
///
/// Fails with [`Halt::NoMatch`] when not even one can be read, and with
/// [`Halt::Failure`] when the amount of one of them breaks off.
pub fn parse_transactions<'a>(input: &'a str) -> (r: Result<(&'a str, Vec<Transaction>), Halt>)
    ensures
        match transactions_spec(input@) {
            Parsed::Match(rest, list) => r matches Ok((x, ts)) && x@ == rest && transaction_views(
                ts@,
            ) == list,
            Parsed::NoMatch => r == Err::<(&str, Vec<Transaction>), Halt>(Halt::NoMatch),
            Parsed::Failure => r == Err::<(&str, Vec<Transaction>), Halt>(Halt::Failure),
        },
{
    let (after_first, first) = parse_transaction(input)?;
    let ghost head = first@;
    let mut list: Vec<Transaction> = Vec::new();
    list.push(first);
    let mut rest = after_first;
    assert(transaction_views(list@) == seq![head]);
    loop
        invariant
            transaction_spec(input@) == Parsed::Match(after_first@, head),
            match more_transactions(rest@) {
                Parsed::Match(end, more) => more_transactions(after_first@) == Parsed::Match(
                    end,
                    transaction_views(list@).skip(1) + more,
                ),
                Parsed::NoMatch => more_transactions(after_first@) is NoMatch,
                Parsed::Failure => more_transactions(after_first@) is Failure,
            },
            transaction_views(list@).len() >= 1,
            transaction_views(list@)[0] == head,
        decreases rest@.len(),
    {
        proof {
            lemma_transaction_consumes(rest@);
        }
        let ghost before = transaction_views(list@);
        match parse_transaction(rest) {
            Err(Halt::NoMatch) => {
                assert(before.skip(1) + Seq::<TransactionView>::empty() == before.skip(1));
                assert(seq![head] + before.skip(1) == before);
                return Ok((rest, list));
            },
            Err(Halt::Failure) => {
                return Err(Halt::Failure);
            },
            Ok((next, transaction)) => {
                let ghost view = transaction@;
                list.push(transaction);
                assert(transaction_views(list@) == before.push(view));
                assert forall|more: Seq<TransactionView>|
                    before.skip(1) + (seq![view] + more) == #[trigger] (transaction_views(
                        list@,
                    ).skip(1) + more) by {
                    assert(before.push(view).skip(1) == before.skip(1).push(view));
                }
                rest = next;
            },
        }
    }
}

} // verus!
