use sanos::error::SanosError;
use sanos::market::{CallQuote, OptionBook, OptionChain};
use sanos::UNIT;

/// Fixed-point value of a real number.
fn fx(v: f64) -> i64 {
    (v * UNIT as f64).round() as i64
}

fn quote(k: f64, bid: f64, ask: f64, w: f64) -> Result<CallQuote, SanosError> {
    CallQuote::new(fx(k), fx(bid), fx(ask), fx(w))
}

#[test]
fn call_quote_validation() {
    assert!(quote(1.0, 0.2, 0.3, 1.0).is_ok());
    assert!(quote(1.0, 0.4, 0.3, 1.0).is_err());
    assert!(quote(0.0, 0.2, 0.3, 1.0).is_err());
    assert!(quote(1.0, -0.1, 0.3, 1.0).is_err());
    assert!(quote(1.0, 0.2, 1.1, 1.0).is_err());
}

#[test]
fn market_option_chain_sorts_and_rejects_duplicates() {
    let q1 = quote(1.2, 0.10, 0.12, 1.0).unwrap();
    let q2 = quote(0.9, 0.25, 0.27, 1.0).unwrap();
    let chain = OptionChain::new(fx(0.5), vec![q1, q2]).unwrap();
    assert!(chain.quotes()[0].k < chain.quotes()[1].k);

    let q3 = quote(1.0, 0.20, 0.21, 1.0).unwrap();
    let q4 = quote(1.0, 0.19, 0.22, 1.0).unwrap();
    assert!(OptionChain::new(fx(0.5), vec![q3, q4]).is_err());
}

#[test]
fn market_option_book_sorts_and_rejects_duplicates() {
    let q = quote(1.0, 0.2, 0.3, 1.0).unwrap();
    let c1 = OptionChain::new(fx(1.0), vec![q]).unwrap();
    let c2 = OptionChain::new(fx(0.5), vec![q]).unwrap();
    let book = OptionBook::new(vec![c1.clone(), c2.clone()]).unwrap();
    let ts: Vec<i64> = book.maturities();
    assert!(ts[0] < ts[1]);

    let c3 = OptionChain::new(fx(1.0), vec![q]).unwrap();
    assert!(OptionBook::new(vec![c1, c3]).is_err());
}

#[test]
fn chain_option_chain_sorts_and_rejects_duplicates() {
    let q1 = quote(1.2, 0.10, 0.12, 1.0).unwrap();
    let q2 = quote(0.9, 0.25, 0.27, 1.0).unwrap();
    let chain = OptionChain::new(fx(0.5), vec![q1, q2]).unwrap();
    assert!(chain.quotes()[0].k < chain.quotes()[1].k);

    let q3 = quote(1.0, 0.20, 0.21, 1.0).unwrap();
    let q4 = quote(1.0, 0.19, 0.22, 1.0).unwrap();
    assert!(OptionChain::new(fx(0.5), vec![q3, q4]).is_err());
}

#[test]
fn book_option_book_sorts_and_rejects_duplicates() {
    let q = quote(1.0, 0.2, 0.3, 1.0).unwrap();
    let c1 = OptionChain::new(fx(1.0), vec![q]).unwrap();
    let c2 = OptionChain::new(fx(0.5), vec![q]).unwrap();
    let book = OptionBook::new(vec![c1.clone(), c2.clone()]).unwrap();
    let ts: Vec<i64> = book.maturities();
    assert!(ts[0] < ts[1]);

    let c3 = OptionChain::new(fx(1.0), vec![q]).unwrap();
    assert!(OptionBook::new(vec![c1, c3]).is_err());
}

#[test]
fn call_quote_errors_name_the_failing_check() {
    assert_eq!(
        quote(0.0, 0.2, 0.3, 1.0).unwrap_err(),
        SanosError::InvalidBound { field: "k", value: 0, min: 1, max: i64::MAX }
    );
    assert_eq!(
        quote(1.0, 0.4, 0.3, 1.0).unwrap_err(),
        SanosError::InvalidOrdering { msg: "bid must be <= ask" }
    );
    assert_eq!(
        quote(1.0, 0.2, 0.3, -1.0).unwrap_err(),
        SanosError::InvalidBound { field: "weight", value: -UNIT, min: 0, max: i64::MAX }
    );
}

#[test]
fn call_quote_mid_rounds_toward_zero() {
    let q = CallQuote::new(UNIT, 1, 2, UNIT).unwrap();
    assert_eq!(q.mid(), 1);
    let q = quote(1.0, 0.2, 0.3, 1.0).unwrap();
    assert_eq!(q.mid(), fx(0.25));
}

#[test]
fn option_chain_reports_least_repeated_strike() {
    let a = quote(1.0, 0.2, 0.3, 1.0).unwrap();
    let b = quote(1.1, 0.2, 0.3, 1.0).unwrap();
    let err = OptionChain::new(fx(0.5), vec![b, a, b, a]).unwrap_err();
    assert_eq!(err, SanosError::DuplicateKey { what: "strike k", value: fx(1.0) });
    assert!(OptionChain::new(fx(0.5), vec![]).is_err());
    assert!(OptionChain::new(0, vec![a]).is_err());
}

#[test]
fn option_book_len_and_emptiness() {
    let q = quote(1.0, 0.2, 0.3, 1.0).unwrap();
    let c1 = OptionChain::new(fx(1.0), vec![q]).unwrap();
    let book = OptionBook::new(vec![c1]).unwrap();
    assert_eq!(book.len(), 1);
    assert!(!book.is_empty());
    assert!(OptionBook::new(vec![]).is_err());
}
