use tx_engine::{
    AccountData, AccountStore, Amount, DataError, LockedAccountStore, Transaction, TransactionStore,
};

#[test]
fn transaction_store_refuses_a_second_insert() {
    let mut store = TransactionStore::new();
    assert_eq!(store.insert_tx(4, Amount::new(5, 0)), Ok(()));
    assert_eq!(store.insert_tx(4, Amount::new(6, 0)), Err(DataError::AlreadyExists));
    assert_eq!(
        store.find_by_id(&4),
        Some(Transaction { amount: Amount::new(5, 0), disputed: false })
    );
    assert_eq!(store.find_by_id(&5), None);
}

#[test]
fn transaction_store_tracks_disputes() {
    let mut store = TransactionStore::new();
    store.insert_tx(1, Amount::new(5, 0)).unwrap();
    store.dispute_transaction(1);
    assert!(store.find_by_id(&1).unwrap().disputed);
    store.resolve_transaction(&1);
    assert!(!store.find_by_id(&1).unwrap().disputed);
    store.resolve_transaction(&1);
    assert!(!store.find_by_id(&1).unwrap().disputed);
}

#[test]
fn account_store_upserts() {
    let mut store = AccountStore::new();
    let a = AccountData { available: Amount::new(1, 0), held: Amount::new(0, 0) };
    let b = AccountData { available: Amount::new(2, 0), held: Amount::new(1, 0) };
    assert_eq!(store.find_by_id(&3), None);
    store.add_or_update_account(&3, &a);
    store.add_or_update_account(&3, &b);
    assert_eq!(store.find_by_id(&3), Some(b));
    assert_eq!(store.find_all(), vec![(3, b)]);
}

#[test]
fn lock_registry_is_idempotent() {
    let mut store = LockedAccountStore::new();
    assert!(!store.is_account_locked(&8));
    store.lock_account(8);
    store.lock_account(8);
    assert!(store.is_account_locked(&8));
    assert!(!store.is_account_locked(&9));
}
