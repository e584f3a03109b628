//! Transactions written one to a line, such as
//! `CREDIT    04062020    PayPal transfer    $4.99`.
//!
//! The line begins with the type itself. The date is kept as its digits, and the amount
//! is digits with an optional fraction. For whole ledgers of indented lines, see
//! [`crate::ledger`].

use vstd::prelude::*;
use vstd::string::StringExecFns;
use crate::scan::{
    after_tag,
    part_of,
    rest_from,
    skip_run,
    take_class1,
    take_run1,
    take_tag,
    trim_text,
    NoMatch,
};
use crate::text::{chars_of, gap, gap_end, run, run_end, trim, CharClass};

verus! {

/// Whether money came in or went out.
#[derive(Debug, Clone, Copy, PartialEq, Eq, Structural)]
pub enum TransactionType {
    CREDIT,
    DEBIT,
}

/// One transaction. The amount is kept as the text that writes it, such as `4.99`.
#[derive(Debug, Clone, PartialEq, Eq)]
pub struct Transaction {
    pub transaction_type: TransactionType,
    pub date: String,
    pub description: String,
    pub amount: String,
}

/// The mathematical value of a [`Transaction`].
pub struct TransactionView {
    pub transaction_type: TransactionType,
    pub date: Seq<char>,
    pub description: Seq<char>,
    pub amount: Seq<char>,
}

impl View for Transaction {
    type V = TransactionView;

    open spec fn view(&self) -> TransactionView {
        TransactionView {
            transaction_type: self.transaction_type,
            date: self.date@,
            description: self.description@,
            amount: self.amount@,
        }
    }
}

/// The type that `s` begins with, and what follows it: the word `CREDIT` or the word
/// `DEBIT`.
pub open spec fn transaction_type_spec(s: Seq<char>) -> Option<(Seq<char>, TransactionType)> {
    match after_tag(s, "CREDIT"@) {
        Some(rest) => Some((rest, TransactionType::CREDIT)),
        None => match after_tag(s, "DEBIT"@) {
            Some(rest) => Some((rest, TransactionType::DEBIT)),
            None => None,
        },
    }
}

/// The date that `s` begins with, and what follows it: digits, one at least.
pub open spec fn date_spec(s: Seq<char>) -> Option<(Seq<char>, Seq<char>)> {
    take_run1(s, CharClass::Digit)
}

/// The description that `s` begins with, and what stands from the first `$` on: what
/// stands before that `$`, or all of `s` when it holds none, trimmed of white space.
pub open spec fn description_spec(s: Seq<char>) -> (Seq<char>, Seq<char>) {
    let at = gap(s, CharClass::Is('$')) as int;
    (s.skip(at), trim(s.take(at), CharClass::Whitespace))
}

/// The length of the number that `s` begins with: digits, one at least, and after
/// them a point and digits, one at least, where both follow. `None` when `s` does not
/// begin with a digit.
pub open spec fn decimal_len(s: Seq<char>) -> Option<int> {
    let n = run(s, CharClass::Digit) as int;
    if n < 1 {
        None
    } else if n < s.len() && s[n] == '.' && run(s.skip(n + 1), CharClass::Digit) >= 1 {
        Some(n + 1 + run(s.skip(n + 1), CharClass::Digit))
    } else {
        Some(n)
    }
}

/// The amount that `s` begins with, and what follows it: a `$` and a number, which is
/// the amount.
pub open spec fn amount_spec(s: Seq<char>) -> Option<(Seq<char>, Seq<char>)> {
    match after_tag(s, seq!['$']) {
        None => None,
        Some(s1) => match decimal_len(s1) {
            None => None,
            Some(n) => Some((s1.skip(n), s1.take(n))),
        },
    }
}

/// The transaction that `s` begins with, and what follows it: a type, a date, a
/// description and an amount, with blanks, one at least, after type and date.
pub open spec fn transaction_spec(s: Seq<char>) -> Option<(Seq<char>, TransactionView)> {
    match transaction_type_spec(s) {
        None => None,
        Some((s1, transaction_type)) => match take_run1(s1, CharClass::Blank) {
            None => None,
            Some((s2, _)) => match date_spec(s2) {
                None => None,
                Some((s3, date)) => match take_run1(s3, CharClass::Blank) {
                    None => None,
                    Some((s4, _)) => {
                        let (s5, description) = description_spec(s4);
                        match amount_spec(s5) {
                            None => None,
                            Some((rest, amount)) => Some(
                                (
                                    rest,
                                    TransactionView { transaction_type, date, description, amount },
                                ),
                            ),
                        }
                    },
                },
            },
        },
    }
}

/// Reads the type of a transaction: `CREDIT` or `DEBIT`.
pub fn parse_transaction_type<'a>(input: &'a str) -> (r: Result<
    (&'a str, TransactionType),
    NoMatch,
>)
    ensures
        match transaction_type_spec(input@) {
            Some((rest, kind)) => r matches Ok((x, k)) && x@ == rest && k == kind,
            None => r is Err,
        },
{
    match take_tag(input, "CREDIT") {
        Ok(rest) => Ok((rest, TransactionType::CREDIT)),
        Err(_) => match take_tag(input, "DEBIT") {
            Ok(rest) => Ok((rest, TransactionType::DEBIT)),
            Err(e) => Err(e),
        },
    }
}

/// Reads a date: the digits that lead `input`.
pub fn parse_date<'a>(input: &'a str) -> (r: Result<(&'a str, String), NoMatch>)
    ensures
        match date_spec(input@) {
            Some((rest, date)) => r matches Ok((x, d)) && x@ == rest && d@ == date,
            None => r is Err,
        },
{
    let (rest, digits) = take_class1(input, CharClass::Digit)?;
    Ok((rest, String::from_str(digits)))
}

/// Reads a description: what stands before the first `$`, trimmed of white space.
pub fn parse_description<'a>(input: &'a str) -> (r: Result<(&'a str, String), NoMatch>)
    ensures
        r matches Ok((x, d)) && x@ == description_spec(input@).0 && d@ == description_spec(
            input@,
        ).1,
{
    let s = chars_of(input);
    assert(s@.skip(0) == s@);
    let at = gap_end(&s, 0, CharClass::Is('$'));
    Ok((rest_from(input, at), String::from_str(trim_text(part_of(input, 0, at)))))
}

/// Reads an amount: a `$`, digits and perhaps a point with more digits. The number is
/// handed back as text.
pub fn parse_amount<'a>(input: &'a str) -> (r: Result<(&'a str, String), NoMatch>)
    ensures
        match amount_spec(input@) {
            Some((rest, amount)) => r matches Ok((x, a)) && x@ == rest && a@ == amount,
            None => r is Err,
        },
{
    proof {
        reveal_strlit("$");
        assert("$"@ == seq!['$']);
    }
    let input = take_tag(input, "$")?;
    let s = chars_of(input);
    assert(s@.skip(0) == s@);
    let n = run_end(&s, 0, CharClass::Digit);
    if n == 0 {
        return Err(NoMatch);
    }
    let end = if n < s.len() && s[n] == '.' {
        let m = run_end(&s, n + 1, CharClass::Digit);
        if m > n + 1 {
            m
        } else {
            n
        }
    } else {
        n
    };
    Ok((rest_from(input, end), String::from_str(part_of(input, 0, end))))
}

/// Reads one transaction.
///
/// Succeeds exactly when `input` begins with `CREDIT` or `DEBIT`, blanks, digits,
/// blanks, and after any text a `$` with a number.
pub fn parse_transaction<'a>(input: &'a str) -> (r: Result<(&'a str, Transaction), NoMatch>)
    ensures
        match transaction_spec(input@) {
            Some((rest, transaction)) => r matches Ok((x, t)) && x@ == rest && t@ == transaction,
            None => r is Err,
        },
{
    let (input, transaction_type) = parse_transaction_type(input)?;
    let (input, _) = take_class1(input, CharClass::Blank)?;
    let (input, date) = parse_date(input)?;
    let (input, _) = take_class1(input, CharClass::Blank)?;
    let (input, description) = parse_description(input)?;
    let (input, amount) = parse_amount(input)?;
    Ok((input, Transaction { transaction_type, date, description, amount }))
}

} // verus!
