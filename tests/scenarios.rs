use tx_engine::{AccountData, Amount, Engine, ProcessingError, TransactionType, TxRow};

fn dec(mantissa: i128, scale: u32) -> Amount {
    Amount::new(mantissa, scale)
}

fn row(tx_type: TransactionType, tx_id: u32, client_id: u16, amount: Option<Amount>) -> TxRow {
    TxRow { tx_type, client_id, tx_id, amount }
}

fn account_of(engine: &Engine, client: u16) -> Option<AccountData> {
    engine.get_account_iter().into_iter().find(|(id, _)| *id == client).map(|(_, acc)| acc)
}

#[test]
fn deposit_then_withdrawal_leaves_the_difference() {
    let mut engine = Engine::new();
    engine.process_row(&row(TransactionType::Deposit, 1, 2, Some(dec(12345, 2)))).unwrap();
    engine.process_row(&row(TransactionType::Withdrawal, 2, 2, Some(dec(12000, 2)))).unwrap();
    let acc = account_of(&engine, 2).unwrap();
    assert_eq!(acc.available, dec(345, 2));
    assert_eq!(acc.held.mantissa, 0);
    assert!(!engine.is_account_locked(2));
}

#[test]
fn dispute_then_chargeback_locks_the_account() {
    let mut engine = Engine::new();
    engine.process_row(&row(TransactionType::Deposit, 1, 2, Some(dec(10000, 2)))).unwrap();
    engine.process_row(&row(TransactionType::Deposit, 2, 2, Some(dec(5000, 2)))).unwrap();
    engine.process_row(&row(TransactionType::Dispute, 2, 2, None)).unwrap();
    engine.process_row(&row(TransactionType::Chargeback, 2, 2, None)).unwrap();
    let acc = account_of(&engine, 2).unwrap();
    assert_eq!(acc.available, dec(10000, 2));
    assert_eq!(acc.held, dec(0, 2));
    assert!(engine.is_account_locked(2));
}

#[test]
fn dispute_of_unknown_tx_changes_nothing() {
    let mut engine = Engine::new();
    engine.process_row(&row(TransactionType::Deposit, 1, 2, Some(dec(10000, 2)))).unwrap();
    let before = account_of(&engine, 2).unwrap();
    let err = engine.process_row(&row(TransactionType::Dispute, 99, 2, None)).unwrap_err();
    assert_eq!(err, ProcessingError::TxNotFound(99));
    assert_eq!(account_of(&engine, 2).unwrap(), before);
}

#[test]
fn resolve_of_undisputed_tx_is_refused() {
    let mut engine = Engine::new();
    engine.process_row(&row(TransactionType::Deposit, 1, 2, Some(dec(10000, 2)))).unwrap();
    let err = engine.process_row(&row(TransactionType::Resolve, 1, 2, None)).unwrap_err();
    assert_eq!(err, ProcessingError::TxNotDisputed(1));
}

#[test]
fn dispute_then_resolve_restores_balances() {
    let mut engine = Engine::new();
    engine.process_row(&row(TransactionType::Deposit, 1, 7, Some(dec(25, 1)))).unwrap();
    engine.process_row(&row(TransactionType::Deposit, 2, 7, Some(dec(1, 0)))).unwrap();
    let before = account_of(&engine, 7).unwrap();
    engine.process_row(&row(TransactionType::Dispute, 2, 7, None)).unwrap();
    let during = account_of(&engine, 7).unwrap();
    assert_eq!(during.available, dec(25, 1));
    assert_eq!(during.held, dec(1, 0));
    engine.process_row(&row(TransactionType::Resolve, 2, 7, None)).unwrap();
    let after = account_of(&engine, 7).unwrap();
    assert_eq!(after.available, before.available);
    assert_eq!(after.held, dec(0, 0));
}

#[test]
fn locked_account_refuses_every_record() {
    let mut engine = Engine::new();
    engine.process_row(&row(TransactionType::Deposit, 1, 3, Some(dec(500, 2)))).unwrap();
    engine.process_row(&row(TransactionType::Dispute, 1, 3, None)).unwrap();
    engine.process_row(&row(TransactionType::Chargeback, 1, 3, None)).unwrap();
    let before = account_of(&engine, 3).unwrap();
    for r in [
        row(TransactionType::Deposit, 10, 3, Some(dec(1, 0))),
        row(TransactionType::Withdrawal, 11, 3, Some(dec(1, 0))),
        row(TransactionType::Dispute, 1, 3, None),
        row(TransactionType::Resolve, 1, 3, None),
        row(TransactionType::Chargeback, 1, 3, None),
        row(TransactionType::Deposit, 12, 3, None),
    ] {
        assert_eq!(engine.process_row(&r).unwrap_err(), ProcessingError::AccountLocked(3));
    }
    assert_eq!(account_of(&engine, 3).unwrap(), before);
}

#[test]
fn tx_id_is_refused_again_even_under_dispute() {
    let mut engine = Engine::new();
    engine.process_row(&row(TransactionType::Deposit, 1, 2, Some(dec(100, 0)))).unwrap();
    engine.process_row(&row(TransactionType::Dispute, 1, 2, None)).unwrap();
    let err = engine.process_row(&row(TransactionType::Withdrawal, 1, 2, Some(dec(1, 0))));
    assert_eq!(err, Err(ProcessingError::DuplicateTx(1)));
    let err = engine.process_row(&row(TransactionType::Deposit, 1, 5, Some(dec(1, 0))));
    assert_eq!(err, Err(ProcessingError::DuplicateTx(1)));
}

#[test]
fn failed_withdrawal_leaves_no_record() {
    let mut engine = Engine::new();
    engine.process_row(&row(TransactionType::Deposit, 1, 2, Some(dec(100, 0)))).unwrap();
    let err = engine.process_row(&row(TransactionType::Withdrawal, 2, 2, Some(dec(101, 0))));
    assert_eq!(err, Err(ProcessingError::InsufficientFunds(2)));
    engine.process_row(&row(TransactionType::Withdrawal, 2, 2, Some(dec(100, 0)))).unwrap();
    assert_eq!(account_of(&engine, 2).unwrap().available, dec(0, 0));
}

#[test]
fn withdrawal_of_exactly_available_succeeds() {
    let mut engine = Engine::new();
    engine.process_row(&row(TransactionType::Deposit, 1, 2, Some(dec(15, 1)))).unwrap();
    engine.process_row(&row(TransactionType::Withdrawal, 2, 2, Some(dec(150, 2)))).unwrap();
    assert_eq!(account_of(&engine, 2).unwrap().available, dec(0, 2));
}

#[test]
fn withdrawal_without_amount_is_refused() {
    let mut engine = Engine::new();
    let err = engine.process_row(&row(TransactionType::Withdrawal, 4, 2, None));
    assert_eq!(err, Err(ProcessingError::AmountNotSpecified(4)));
}

#[test]
fn resolve_and_chargeback_need_an_account() {
    let mut engine = Engine::new();
    engine.process_row(&row(TransactionType::Deposit, 1, 2, Some(dec(100, 0)))).unwrap();
    engine.process_row(&row(TransactionType::Dispute, 1, 2, None)).unwrap();
    let err = engine.process_row(&row(TransactionType::Resolve, 1, 9, None));
    assert_eq!(err, Err(ProcessingError::AccountNotFound(9)));
    let err = engine.process_row(&row(TransactionType::Chargeback, 1, 9, None));
    assert_eq!(err, Err(ProcessingError::AccountNotFound(9)));
}

#[test]
fn deposit_past_the_range_overflows() {
    let mut engine = Engine::new();
    engine.process_row(&row(TransactionType::Deposit, 1, 2, Some(dec(i128::MAX, 0)))).unwrap();
    let err = engine.process_row(&row(TransactionType::Deposit, 2, 2, Some(dec(1, 0))));
    assert_eq!(err, Err(ProcessingError::AmountOverflow(2)));
    assert_eq!(account_of(&engine, 2).unwrap().available, dec(i128::MAX, 0));
}

#[test]
fn accounts_are_listed_once_each() {
    let mut engine = Engine::new();
    engine.process_row(&row(TransactionType::Deposit, 1, 2, Some(dec(1, 0)))).unwrap();
    engine.process_row(&row(TransactionType::Deposit, 2, 5, Some(dec(2, 0)))).unwrap();
    engine.process_row(&row(TransactionType::Deposit, 3, 2, Some(dec(3, 0)))).unwrap();
    let mut ids: Vec<u16> = engine.get_account_iter().into_iter().map(|(id, _)| id).collect();
    ids.sort();
    assert_eq!(ids, vec![2, 5]);
    assert_eq!(account_of(&engine, 2).unwrap().available, dec(4, 0));
}
