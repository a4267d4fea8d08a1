use tx_engine::Amount;

#[test]
fn add_aligns_scales() {
    let r = Amount::new(15, 1).checked_add(&Amount::new(2, 0)).unwrap();
    assert_eq!(r, Amount::new(35, 1));
}

#[test]
fn sub_aligns_scales() {
    let r = Amount::new(12345, 2).checked_sub(&Amount::new(120, 0)).unwrap();
    assert_eq!(r, Amount::new(345, 2));
    let r = Amount::new(1, 0).checked_sub(&Amount::new(25, 1)).unwrap();
    assert_eq!(r, Amount::new(-15, 1));
}

#[test]
fn add_reports_overflow() {
    assert_eq!(Amount::new(i128::MAX, 0).checked_add(&Amount::new(1, 0)), None);
    assert_eq!(Amount::new(i128::MAX / 5, 0).checked_add(&Amount::new(1, 1)), None);
    assert_eq!(Amount::new(i128::MIN, 0).checked_sub(&Amount::new(1, 0)), None);
}

#[test]
fn less_than_compares_values() {
    assert!(Amount::new(12345, 2).less_than(&Amount::new(12500, 2)));
    assert!(!Amount::new(150, 2).less_than(&Amount::new(15, 1)));
    assert!(Amount::new(-1, 28).less_than(&Amount::new(0, 0)));
    assert!(Amount::new(i128::MIN, 0).less_than(&Amount::new(1, 28)));
    assert!(!Amount::new(i128::MAX, 0).less_than(&Amount::new(i128::MAX, 28)));
}

#[test]
fn sign_and_zero() {
    assert!(Amount::new(-1, 3).is_negative());
    assert!(!Amount::zero().is_negative());
    assert_eq!(Amount::zero(), Amount::new(0, 0));
}
