use winnowcurl::scan::NoMatch;
use winnowcurl::transaction::{
    parse_amount, parse_date, parse_description, parse_transaction, parse_transaction_type,
    Transaction, TransactionType,
};

#[test]
fn lines_of_a_ledger_are_read() {
    let inputs = [
        "CREDIT    04062020    PayPal transfer    $4.99",
        "CREDIT    04032020    Payroll            $69.73",
        "DEBIT     04022020    ACH transfer       $38.25",
        "DEBIT     03242020    IRS tax kind       $52249.98",
    ];
    let amounts = [4.99, 69.73, 38.25, 52249.98];
    for (input, amount) in inputs.iter().zip(amounts.iter()) {
        let (rest, transaction) = parse_transaction(input).unwrap();
        assert_eq!(rest, "");
        assert_eq!(transaction.amount.parse::<f64>().unwrap(), *amount);
    }
    assert_eq!(
        parse_transaction(inputs[2]),
        Ok((
            "",
            Transaction {
                transaction_type: TransactionType::DEBIT,
                date: "04022020".to_string(),
                description: "ACH transfer".to_string(),
                amount: "38.25".to_string(),
            }
        ))
    );
}

#[test]
fn type_is_one_of_two_words() {
    assert_eq!(parse_transaction_type("CREDITS"), Ok(("S", TransactionType::CREDIT)));
    assert_eq!(parse_transaction_type("DEBIT "), Ok((" ", TransactionType::DEBIT)));
    assert_eq!(parse_transaction_type("credit"), Err(NoMatch));
    assert_eq!(parse_transaction_type(" CREDIT"), Err(NoMatch));
    assert_eq!(parse_transaction_type(""), Err(NoMatch));
}

#[test]
fn date_is_a_run_of_digits() {
    assert_eq!(parse_date("04062020  x"), Ok(("  x", "04062020".to_string())));
    assert_eq!(parse_date("4"), Ok(("", "4".to_string())));
    assert_eq!(parse_date("x4"), Err(NoMatch));
}

#[test]
fn description_may_be_all_that_is_left() {
    assert_eq!(parse_description("  PayPal transfer \t$4.99"), Ok(("$4.99", "PayPal transfer".to_string())));
    assert_eq!(parse_description("$4.99"), Ok(("$4.99", "".to_string())));
    assert_eq!(parse_description(" no amount\n"), Ok(("", "no amount".to_string())));
    assert_eq!(parse_description(""), Ok(("", "".to_string())));
}

#[test]
fn amount_is_digits_with_an_optional_fraction() {
    assert_eq!(parse_amount("$4.99"), Ok(("", "4.99".to_string())));
    assert_eq!(parse_amount("$4"), Ok(("", "4".to_string())));
    assert_eq!(parse_amount("$4."), Ok((".", "4".to_string())));
    assert_eq!(parse_amount("$4.5.6"), Ok((".6", "4.5".to_string())));
    assert_eq!(parse_amount("$4.99e3"), Ok(("e3", "4.99".to_string())));
    assert_eq!(parse_amount("$.99"), Err(NoMatch));
    assert_eq!(parse_amount("$-4"), Err(NoMatch));
    assert_eq!(parse_amount("4.99"), Err(NoMatch));
    assert_eq!(parse_amount(""), Err(NoMatch));
}

#[test]
fn transaction_needs_every_part() {
    assert!(parse_transaction("CREDIT 1 x $2 rest").is_ok());
    assert!(parse_transaction("CREDIT 1 $2").is_ok());
    assert!(parse_transaction("CREDIT1 x $2").is_err());
    assert!(parse_transaction("CREDIT x $2").is_err());
    assert!(parse_transaction("CREDIT 1x $2").is_err());
    assert!(parse_transaction("CREDIT 1 x 2").is_err());
    assert!(parse_transaction("REFUND 1 x $2").is_err());
}
