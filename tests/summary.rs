use tx_engine::{summarize, AccountData, AccountSummary, Amount};

#[test]
fn summary_rounds_to_four_digits_half_to_even() {
    let data = AccountData { available: Amount::new(12345650, 6), held: Amount::new(-12345750, 6) };
    let s = summarize(7, &data, true).unwrap();
    assert_eq!(
        s,
        AccountSummary {
            client: 7,
            total: Amount::new(-1, 4),
            available: Amount::new(123456, 4),
            held: Amount::new(-123458, 4),
            locked: true,
        }
    );
}

#[test]
fn summary_total_is_summed_before_rounding() {
    let data = AccountData { available: Amount::new(100004, 5), held: Amount::new(100004, 5) };
    let s = summarize(1, &data, false).unwrap();
    assert_eq!(s.available, Amount::new(10000, 4));
    assert_eq!(s.held, Amount::new(10000, 4));
    assert_eq!(s.total, Amount::new(20001, 4));
}

#[test]
fn summary_keeps_short_amounts() {
    let data = AccountData { available: Amount::new(345, 2), held: Amount::new(0, 0) };
    let s = summarize(2, &data, false).unwrap();
    assert_eq!(s.available, Amount::new(345, 2));
    assert_eq!(s.total, Amount::new(345, 2));
    assert_eq!(s.held, Amount::new(0, 0));
}

#[test]
fn summary_refuses_balances_beyond_a_decimal() {
    let data = AccountData { available: Amount::new(1i128 << 100, 0), held: Amount::new(0, 0) };
    assert_eq!(summarize(2, &data, false), None);
}
