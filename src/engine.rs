//! The engine: applies one record at a time to the three stores.
use crate::amount::{
    lemma_add_then_sub, lemma_add_units, lemma_sub_then_add, lemma_sub_units, spec_add, spec_sub,
    Amount,
};
use crate::models::{AccountData, TransactionType, TxRow};
use crate::stores::{AccountStore, DataError, LockedAccountStore, TransactionStore};
use vstd::prelude::*;

verus! {

/// Why a record was rejected. Each variant carries the client id or the
/// transaction id that it concerns.
#[derive(Clone, Copy, Debug, PartialEq, Eq, Structural)]
pub enum ProcessingError {
    AccountNotFound(u16),
    AccountLocked(u16),
    InsufficientFunds(u16),
    DuplicateTx(u32),
    TxAlreadyDisputed(u32),
    TxNotFound(u32),
    TxNotDisputed(u32),
    AmountNotSpecified(u32),
    /// A balance would leave the range of exactly representable amounts.
    AmountOverflow(u32),
}

/// An account with both balances zero: what a first deposit starts from.
pub open spec fn empty_account() -> AccountData {
    AccountData {
        available: Amount { mantissa: 0, scale: 0 },
        held: Amount { mantissa: 0, scale: 0 },
    }
}

/// The three stores, owned together.
pub struct Engine {
    account_store: AccountStore,
    tx_store: TransactionStore,
    locked_accounts_store: LockedAccountStore,
}

impl Engine {
    /// The account of each client id.
    pub closed spec fn accounts(&self) -> Map<u16, AccountData> {
        self.account_store.accounts()
    }

    /// The amount of each recorded deposit and withdrawal.
    pub closed spec fn amounts(&self) -> Map<u32, Amount> {
        self.tx_store.amounts()
    }

    /// The transaction ids under dispute.
    pub closed spec fn disputed(&self) -> Set<u32> {
        self.tx_store.disputed()
    }

    /// The locked client ids.
    pub closed spec fn locked(&self) -> Set<u16> {
        self.locked_accounts_store.locked()
    }

    pub closed spec fn wf(&self) -> bool {
        self.account_store.wf() && self.tx_store.wf()
    }

    /// The account of `client`, or an empty one where it has none.
    pub open spec fn account_or_empty(&self, client: u16) -> AccountData {
        if self.accounts().contains_key(client) {
            self.accounts()[client]
        } else {
            empty_account()
        }
    }

    /// The outcome of a deposit.
    pub open spec fn deposit_outcome(&self, tx: u32, client: u16, amount: Amount) -> Result<
        (),
        ProcessingError,
    > {
        if self.amounts().contains_key(tx) {
            Err(ProcessingError::DuplicateTx(tx))
        } else if spec_add(self.account_or_empty(client).available, amount) is None {
            Err(ProcessingError::AmountOverflow(tx))
        } else {
            Ok(())
        }
    }

    /// The outcome of a withdrawal.
    pub open spec fn withdrawal_outcome(&self, tx: u32, client: u16, amount: Amount) -> Result<
        (),
        ProcessingError,
    > {
        if self.amounts().contains_key(tx) {
            Err(ProcessingError::DuplicateTx(tx))
        } else if !self.accounts().contains_key(client) {
            Err(ProcessingError::AccountNotFound(client))
        } else if self.accounts()[client].available.units() < amount.units() {
            Err(ProcessingError::InsufficientFunds(client))
        } else if spec_sub(self.accounts()[client].available, amount) is None {
            Err(ProcessingError::AmountOverflow(tx))
        } else {
            Ok(())
        }
    }

    /// The outcome of a dispute.
    pub open spec fn dispute_outcome(&self, tx: u32, client: u16) -> Result<(), ProcessingError> {
        if !self.amounts().contains_key(tx) {
            Err(ProcessingError::TxNotFound(tx))
        } else if self.disputed().contains(tx) {
            Err(ProcessingError::TxAlreadyDisputed(tx))
        } else if !self.accounts().contains_key(client) {
            Err(ProcessingError::AccountNotFound(client))
        } else if spec_sub(self.accounts()[client].available, self.amounts()[tx]) is None
            || spec_add(self.accounts()[client].held, self.amounts()[tx]) is None {
            Err(ProcessingError::AmountOverflow(tx))
        } else {
            Ok(())
        }
    }

    /// The outcome of a resolve. A transaction that was never recorded counts
    /// as one that is not under dispute.
    pub open spec fn resolve_outcome(&self, tx: u32, client: u16) -> Result<(), ProcessingError> {
        if !(self.amounts().contains_key(tx) && self.disputed().contains(tx)) {
            Err(ProcessingError::TxNotDisputed(tx))
        } else if !self.accounts().contains_key(client) {
            Err(ProcessingError::AccountNotFound(client))
        } else if spec_add(self.accounts()[client].available, self.amounts()[tx]) is None
            || spec_sub(self.accounts()[client].held, self.amounts()[tx]) is None {
            Err(ProcessingError::AmountOverflow(tx))
        } else {
            Ok(())
        }
    }

    /// The outcome of a chargeback. A transaction that was never recorded
    /// counts as one that is not under dispute.
    pub open spec fn chargeback_outcome(&self, tx: u32, client: u16) -> Result<
        (),
        ProcessingError,
    > {
        if !(self.amounts().contains_key(tx) && self.disputed().contains(tx)) {
            Err(ProcessingError::TxNotDisputed(tx))
        } else if !self.accounts().contains_key(client) {
            Err(ProcessingError::AccountNotFound(client))
        } else if spec_sub(self.accounts()[client].held, self.amounts()[tx]) is None {
            Err(ProcessingError::AmountOverflow(tx))
        } else {
            Ok(())
        }
    }

    /// The outcome of one record.
    pub open spec fn row_outcome(&self, row: TxRow) -> Result<(), ProcessingError> {
        if self.locked().contains(row.client_id) {
            Err(ProcessingError::AccountLocked(row.client_id))
        } else {
            match row.tx_type {
                TransactionType::Deposit => match row.amount {
                    None => Err(ProcessingError::AmountNotSpecified(row.tx_id)),
                    Some(a) => self.deposit_outcome(row.tx_id, row.client_id, a),
                },
                TransactionType::Withdrawal => match row.amount {
                    None => Err(ProcessingError::AmountNotSpecified(row.tx_id)),
                    Some(a) => self.withdrawal_outcome(row.tx_id, row.client_id, a),
                },
                TransactionType::Dispute => self.dispute_outcome(row.tx_id, row.client_id),
                TransactionType::Resolve => self.resolve_outcome(row.tx_id, row.client_id),
                TransactionType::Chargeback => self.chargeback_outcome(row.tx_id, row.client_id),
            }
        }
    }

    /// `post` is `self` after `row` was applied with success.
    pub open spec fn row_applied(&self, row: TxRow, post: Engine) -> bool {
        let c = row.client_id;
        let tx = row.tx_id;
        let acc = self.account_or_empty(c);
        match row.tx_type {
            TransactionType::Deposit => {
                &&& post.amounts() == self.amounts().insert(tx, row.amount->Some_0)
                &&& post.accounts() == self.accounts().insert(
                    c,
                    AccountData {
                        available: spec_add(acc.available, row.amount->Some_0)->Some_0,
                        held: acc.held,
                    },
                )
                &&& post.disputed() == self.disputed()
                &&& post.locked() == self.locked()
            },
            TransactionType::Withdrawal => {
                &&& post.amounts() == self.amounts().insert(tx, row.amount->Some_0)
                &&& post.accounts() == self.accounts().insert(
                    c,
                    AccountData {
                        available: spec_sub(acc.available, row.amount->Some_0)->Some_0,
                        held: acc.held,
                    },
                )
                &&& post.disputed() == self.disputed()
                &&& post.locked() == self.locked()
            },
            TransactionType::Dispute => {
                &&& post.amounts() == self.amounts()
                &&& post.accounts() == self.accounts().insert(
                    c,
                    AccountData {
                        available: spec_sub(acc.available, self.amounts()[tx])->Some_0,
                        held: spec_add(acc.held, self.amounts()[tx])->Some_0,
                    },
                )
                &&& post.disputed() == self.disputed().insert(tx)
                &&& post.locked() == self.locked()
            },
            TransactionType::Resolve => {
                &&& post.amounts() == self.amounts()
                &&& post.accounts() == self.accounts().insert(
                    c,
                    AccountData {
                        available: spec_add(acc.available, self.amounts()[tx])->Some_0,
                        held: spec_sub(acc.held, self.amounts()[tx])->Some_0,
                    },
                )
                &&& post.disputed() == self.disputed().remove(tx)
                &&& post.locked() == self.locked()
            },
            TransactionType::Chargeback => {
                &&& post.amounts() == self.amounts()
                &&& post.accounts() == self.accounts().insert(
                    c,
                    AccountData {
                        available: acc.available,
                        held: spec_sub(acc.held, self.amounts()[tx])->Some_0,
                    },
                )
                &&& post.disputed() == self.disputed()
                &&& post.locked() == self.locked().insert(c)
            },
        }
    }

    /// `post` holds the same stores as `self`.
    pub open spec fn same_state(&self, post: Engine) -> bool {
        &&& post.accounts() == self.accounts()
        &&& post.amounts() == self.amounts()
        &&& post.disputed() == self.disputed()
        &&& post.locked() == self.locked()
    }

    /// What applying `row` to `self` does: `r` is the outcome, and `post` is
    /// the new state, unchanged on failure.
    pub open spec fn step(&self, row: TxRow, post: Engine, r: Result<(), ProcessingError>) -> bool {
        &&& r == self.row_outcome(row)
        &&& post.wf()
        &&& r is Ok ==> self.row_applied(row, post)
        &&& r is Err ==> self.same_state(post)
    }

    pub fn new() -> (r: Self)
        ensures
            r.wf(),
            r.accounts() == Map::<u16, AccountData>::empty(),
            r.amounts() == Map::<u32, Amount>::empty(),
            r.disputed() == Set::<u32>::empty(),
            r.locked() == Set::<u16>::empty(),
    {
        Engine {
            account_store: AccountStore::new(),
            tx_store: TransactionStore::new(),
            locked_accounts_store: LockedAccountStore::new(),
        }
    }

    /// Applies one record. On failure nothing changes.
    pub fn process_row(&mut self, row: &TxRow) -> (r: Result<(), ProcessingError>)
        requires
            old(self).wf(),
            row.wf(),
        ensures
            old(self).step(*row, *final(self), r),
    {
        if self.locked_accounts_store.is_account_locked(&row.client_id) {
            return Err(ProcessingError::AccountLocked(row.client_id));
        }
        match (row.tx_type, row.amount) {
            (TransactionType::Deposit, None) => Err(ProcessingError::AmountNotSpecified(row.tx_id)),
            (TransactionType::Withdrawal, None) => Err(
                ProcessingError::AmountNotSpecified(row.tx_id),
            ),
            (TransactionType::Deposit, Some(amount)) => self.process_deposit(
                row.tx_id,
                row.client_id,
                amount,
            ),
            (TransactionType::Withdrawal, Some(amount)) => self.process_withdrawal(
                row.tx_id,
                row.client_id,
                amount,
            ),
            (TransactionType::Resolve, _) => self.process_resolve(row.tx_id, row.client_id),
            (TransactionType::Dispute, _) => self.process_dispute(row.tx_id, row.client_id),
            (TransactionType::Chargeback, _) => self.process_chargeback(row.tx_id, row.client_id),
        }
    }

    fn process_deposit(&mut self, tx_id: u32, client_id: u16, amount: Amount) -> (r: Result<
        (),
        ProcessingError,
    >)
        requires
            old(self).wf(),
            amount.wf(),
        ensures
            r == old(self).deposit_outcome(tx_id, client_id, amount),
            final(self).wf(),
            r is Ok ==> old(self).row_applied(
                TxRow {
                    tx_type: TransactionType::Deposit,
                    client_id,
                    tx_id,
                    amount: Some(amount),
                },
                *final(self),
            ),
            r is Err ==> old(self).same_state(*final(self)),
    {
        if self.tx_store.find_by_id(&tx_id).is_some() {
            return Err(ProcessingError::DuplicateTx(tx_id));
        }
        let mut account = match self.account_store.find_by_id(&client_id) {
            Some(a) => a,
            None => AccountData { available: Amount::zero(), held: Amount::zero() },
        };
        let available = match account.available.checked_add(&amount) {
            Some(v) => v,
            None => {
                return Err(ProcessingError::AmountOverflow(tx_id));
            },
        };
        match self.tx_store.insert_tx(tx_id, amount) {
            Err(DataError::AlreadyExists) => {
                return Err(ProcessingError::DuplicateTx(tx_id));
            },
            Ok(()) => {},
        }
        account.available = available;
        self.account_store.add_or_update_account(&client_id, &account);
        Ok(())
    }

    fn process_withdrawal(&mut self, tx_id: u32, client_id: u16, amount: Amount) -> (r: Result<
        (),
        ProcessingError,
    >)
        requires
            old(self).wf(),
            amount.wf(),
        ensures
            r == old(self).withdrawal_outcome(tx_id, client_id, amount),
            final(self).wf(),
            r is Ok ==> old(self).row_applied(
                TxRow {
                    tx_type: TransactionType::Withdrawal,
                    client_id,
                    tx_id,
                    amount: Some(amount),
                },
                *final(self),
            ),
            r is Err ==> old(self).same_state(*final(self)),
    {
        if self.tx_store.find_by_id(&tx_id).is_some() {
            return Err(ProcessingError::DuplicateTx(tx_id));
        }
        let mut account = match self.account_store.find_by_id(&client_id) {
            Some(a) => a,
            None => {
                return Err(ProcessingError::AccountNotFound(client_id));
            },
        };
        if account.available.less_than(&amount) {
            return Err(ProcessingError::InsufficientFunds(client_id));
        }
        let available = match account.available.checked_sub(&amount) {
            Some(v) => v,
            None => {
                return Err(ProcessingError::AmountOverflow(tx_id));
            },
        };
        match self.tx_store.insert_tx(tx_id, amount) {
            Err(DataError::AlreadyExists) => {
                return Err(ProcessingError::DuplicateTx(tx_id));
            },
            Ok(()) => {},
        }
        account.available = available;
        self.account_store.add_or_update_account(&client_id, &account);
        Ok(())
    }

    fn process_dispute(&mut self, tx_id: u32, client_id: u16) -> (r: Result<(), ProcessingError>)
        requires
            old(self).wf(),
        ensures
            r == old(self).dispute_outcome(tx_id, client_id),
            final(self).wf(),
            r is Ok ==> old(self).row_applied(
                TxRow { tx_type: TransactionType::Dispute, client_id, tx_id, amount: None },
                *final(self),
            ),
            r is Err ==> old(self).same_state(*final(self)),
    {
        let tx = match self.tx_store.find_by_id(&tx_id) {
            None => {
                return Err(ProcessingError::TxNotFound(tx_id));
            },
            Some(tx) => tx,
        };
        if tx.disputed {
            return Err(ProcessingError::TxAlreadyDisputed(tx_id));
        }
        let mut data = match self.account_store.find_by_id(&client_id) {
            None => {
                return Err(ProcessingError::AccountNotFound(client_id));
            },
            Some(data) => data,
        };
        let available = data.available.checked_sub(&tx.amount);
        let held = data.held.checked_add(&tx.amount);
        match (available, held) {
            (Some(available), Some(held)) => {
                data.available = available;
                data.held = held;
            },
            _ => {
                return Err(ProcessingError::AmountOverflow(tx_id));
            },
        }
        self.account_store.add_or_update_account(&client_id, &data);
        self.tx_store.dispute_transaction(tx_id);
        Ok(())
    }

    fn process_resolve(&mut self, tx_id: u32, client_id: u16) -> (r: Result<(), ProcessingError>)
        requires
            old(self).wf(),
        ensures
            r == old(self).resolve_outcome(tx_id, client_id),
            final(self).wf(),
            r is Ok ==> old(self).row_applied(
                TxRow { tx_type: TransactionType::Resolve, client_id, tx_id, amount: None },
                *final(self),
            ),
            r is Err ==> old(self).same_state(*final(self)),
    {
        let tx = match self.tx_store.find_by_id(&tx_id) {
            Some(tx) => tx,
            None => {
                return Err(ProcessingError::TxNotDisputed(tx_id));
            },
        };
        if !tx.disputed {
            return Err(ProcessingError::TxNotDisputed(tx_id));
        }
        let mut data = match self.account_store.find_by_id(&client_id) {
            None => {
                return Err(ProcessingError::AccountNotFound(client_id));
            },
            Some(data) => data,
        };
        let available = data.available.checked_add(&tx.amount);
        let held = data.held.checked_sub(&tx.amount);
        match (available, held) {
            (Some(available), Some(held)) => {
                data.available = available;
                data.held = held;
            },
            _ => {
                return Err(ProcessingError::AmountOverflow(tx_id));
            },
        }
        self.account_store.add_or_update_account(&client_id, &data);
        self.tx_store.resolve_transaction(&tx_id);
        Ok(())
    }

    fn process_chargeback(&mut self, tx_id: u32, client_id: u16) -> (r: Result<
        (),
        ProcessingError,
    >)
        requires
            old(self).wf(),
        ensures
            r == old(self).chargeback_outcome(tx_id, client_id),
            final(self).wf(),
            r is Ok ==> old(self).row_applied(
                TxRow { tx_type: TransactionType::Chargeback, client_id, tx_id, amount: None },
                *final(self),
            ),
            r is Err ==> old(self).same_state(*final(self)),
    {
        let tx = match self.tx_store.find_by_id(&tx_id) {
            Some(tx) => tx,
            None => {
                return Err(ProcessingError::TxNotDisputed(tx_id));
            },
        };
        if !tx.disputed {
            return Err(ProcessingError::TxNotDisputed(tx_id));
        }
        let mut data = match self.account_store.find_by_id(&client_id) {
            None => {
                return Err(ProcessingError::AccountNotFound(client_id));
            },
            Some(data) => data,
        };
        match data.held.checked_sub(&tx.amount) {
            Some(held) => {
                data.held = held;
            },
            None => {
                return Err(ProcessingError::AmountOverflow(tx_id));
            },
        }
        self.account_store.add_or_update_account(&client_id, &data);
        self.locked_accounts_store.lock_account(client_id);
        Ok(())
    }

    /// Every account with its client id, each client once, in no promised
    /// order.
    pub fn get_account_iter(&self) -> (r: Vec<(u16, AccountData)>)
        requires
            self.wf(),
        ensures
            r@.len() == self.accounts().dom().len(),
            forall|i: int| 0 <= i < r@.len() ==> self.accounts().contains_key(#[trigger] r@[i].0)
                && self.accounts()[r@[i].0] == r@[i].1,
            forall|id: u16| #[trigger]
                self.accounts().contains_key(id) ==> exists|i: int|
                    0 <= i < r@.len() && #[trigger] r@[i].0 == id,
            forall|i: int, j: int| 0 <= i < j < r@.len() ==> r@[i].0 != r@[j].0,
            forall|i: int| 0 <= i < r@.len() ==> (#[trigger] r@[i]).1.wf(),
    {
        let r = self.account_store.find_all();
        assert forall|i: int| 0 <= i < r@.len() implies (#[trigger] r@[i]).1.wf() by {
            assert(self.account_store.accounts().contains_key(r@[i].0));
        }
        r
    }

    pub fn is_account_locked(&self, id: u16) -> (r: bool)
        ensures
            r == self.locked().contains(id),
    {
        self.locked_accounts_store.is_account_locked(&id)
    }
}

/// Balances move only through a record that succeeds: a rejected record
/// leaves every account as it was, a successful one touches its own client's
/// account alone, a dispute or a resolve moves funds between `available` and
/// `held` without changing their sum, and a deposit, a withdrawal or a
/// chargeback changes the sum by exactly its amount.
pub proof fn lemma_balances_change_only_on_success(
    pre: Engine,
    row: TxRow,
    post: Engine,
    r: Result<(), ProcessingError>,
)
    requires
        pre.wf(),
        row.wf(),
        pre.step(row, post, r),
    ensures
        r is Err ==> post.accounts() == pre.accounts(),
        forall|c: u16|
            c != row.client_id ==> #[trigger] post.account_or_empty(c) == pre.account_or_empty(c),
        r is Ok && (row.tx_type == TransactionType::Dispute || row.tx_type
            == TransactionType::Resolve) ==> post.account_or_empty(row.client_id).total_units()
            == pre.account_or_empty(row.client_id).total_units(),
        r is Ok && row.tx_type == TransactionType::Deposit ==> post.account_or_empty(
            row.client_id,
        ).total_units() == pre.account_or_empty(row.client_id).total_units()
            + row.amount->Some_0.units(),
        r is Ok && row.tx_type == TransactionType::Withdrawal ==> post.account_or_empty(
            row.client_id,
        ).total_units() == pre.account_or_empty(row.client_id).total_units()
            - row.amount->Some_0.units(),
        r is Ok && row.tx_type == TransactionType::Chargeback ==> post.account_or_empty(
            row.client_id,
        ).total_units() == pre.account_or_empty(row.client_id).total_units()
            - pre.amounts()[row.tx_id].units(),
{
    let c = row.client_id;
    assert forall|d: u16| d != c implies #[trigger] post.account_or_empty(d)
        == pre.account_or_empty(d) by {
        if r is Ok {
            assert(post.accounts().contains_key(d) == pre.accounts().contains_key(d));
        }
    }
    if r is Ok && (row.tx_type == TransactionType::Deposit || row.tx_type
        == TransactionType::Withdrawal) {
        let acc = pre.account_or_empty(c);
        let amt = row.amount->Some_0;
        assert(pre.accounts().contains_key(c) ==> pre.account_store.accounts().contains_key(c));
        assert(amt.wf()) by {
            assert(row.wf());
        }
        lemma_add_units(acc.available, amt);
        lemma_sub_units(acc.available, amt);
    }
    if r is Ok && (row.tx_type == TransactionType::Dispute || row.tx_type
        == TransactionType::Resolve || row.tx_type == TransactionType::Chargeback) {
        let acc = pre.accounts()[c];
        let amt = pre.amounts()[row.tx_id];
        assert(pre.account_store.accounts().contains_key(c));
        assert(pre.tx_store.amounts().contains_key(row.tx_id));
        lemma_add_units(acc.available, amt);
        lemma_sub_units(acc.available, amt);
        lemma_add_units(acc.held, amt);
        lemma_sub_units(acc.held, amt);
    }
}

/// A transaction id that a deposit or withdrawal used stays recorded with
/// its amount, whatever record comes next.
pub proof fn lemma_recorded_tx_persists(
    pre: Engine,
    row: TxRow,
    post: Engine,
    r: Result<(), ProcessingError>,
    tx: u32,
)
    requires
        pre.step(row, post, r),
        pre.amounts().contains_key(tx),
    ensures
        post.amounts().contains_key(tx),
        post.amounts()[tx] == pre.amounts()[tx],
{
}

/// Once a deposit or withdrawal succeeded with an id, a later deposit or
/// withdrawal with that id on an unlocked account is refused as a
/// duplicate, whether or not the first is under dispute.
pub proof fn lemma_tx_id_used_once(
    pre: Engine,
    row: TxRow,
    post: Engine,
    r: Result<(), ProcessingError>,
    later: TxRow,
)
    requires
        pre.step(row, post, r),
        r is Ok,
        row.tx_type == TransactionType::Deposit || row.tx_type == TransactionType::Withdrawal,
        later.tx_type == TransactionType::Deposit || later.tx_type == TransactionType::Withdrawal,
        later.amount is Some,
        later.tx_id == row.tx_id,
        !post.locked().contains(later.client_id),
    ensures
        post.row_outcome(later) == Err::<(), ProcessingError>(
            ProcessingError::DuplicateTx(later.tx_id),
        ),
{
    assert(post.amounts().contains_key(row.tx_id));
}

/// A dispute followed by a resolve of the same transaction for the same
/// client succeeds and restores `available` and `held` to their values
/// before the dispute.
pub proof fn lemma_dispute_then_resolve(
    e0: Engine,
    dispute: TxRow,
    e1: Engine,
    r1: Result<(), ProcessingError>,
    resolve: TxRow,
    e2: Engine,
    r2: Result<(), ProcessingError>,
)
    requires
        e0.wf(),
        dispute.tx_type == TransactionType::Dispute,
        e0.step(dispute, e1, r1),
        r1 is Ok,
        resolve.tx_type == TransactionType::Resolve,
        resolve.tx_id == dispute.tx_id,
        resolve.client_id == dispute.client_id,
        e1.step(resolve, e2, r2),
    ensures
        r2 is Ok,
        e2.accounts()[dispute.client_id].available.units() == e0.accounts()[dispute.client_id].available.units(),
        e2.accounts()[dispute.client_id].held.units() == e0.accounts()[dispute.client_id].held.units(),
        e2.disputed() == e0.disputed(),
{
    let c = dispute.client_id;
    let tx = dispute.tx_id;
    let acc = e0.accounts()[c];
    let amt = e0.amounts()[tx];
    assert(e0.account_store.accounts().contains_key(c));
    assert(e0.tx_store.amounts().contains_key(tx));
    lemma_sub_then_add(acc.available, amt);
    lemma_add_then_sub(acc.held, amt);
    assert(e1.accounts().contains_key(c));
    assert(e2.disputed() =~= e0.disputed());
}

/// A dispute followed by a chargeback of the same transaction for the same
/// client succeeds, locks the client, and takes exactly the disputed amount
/// out of `held`, which is back at its value before the dispute.
pub proof fn lemma_dispute_then_chargeback(
    e0: Engine,
    dispute: TxRow,
    e1: Engine,
    r1: Result<(), ProcessingError>,
    chargeback: TxRow,
    e2: Engine,
    r2: Result<(), ProcessingError>,
)
    requires
        e0.wf(),
        dispute.tx_type == TransactionType::Dispute,
        e0.step(dispute, e1, r1),
        r1 is Ok,
        chargeback.tx_type == TransactionType::Chargeback,
        chargeback.tx_id == dispute.tx_id,
        chargeback.client_id == dispute.client_id,
        e1.step(chargeback, e2, r2),
    ensures
        r2 is Ok,
        e2.locked().contains(dispute.client_id),
        e2.accounts()[dispute.client_id].held.units() == e1.accounts()[dispute.client_id].held.units()
            - e0.amounts()[dispute.tx_id].units(),
        e2.accounts()[dispute.client_id].held.units() == e0.accounts()[dispute.client_id].held.units(),
        e2.accounts()[dispute.client_id].available == e1.accounts()[dispute.client_id].available,
{
    let c = dispute.client_id;
    let tx = dispute.tx_id;
    let acc = e0.accounts()[c];
    let amt = e0.amounts()[tx];
    assert(e0.account_store.accounts().contains_key(c));
    assert(e0.tx_store.amounts().contains_key(tx));
    lemma_add_then_sub(acc.held, amt);
    lemma_add_units(acc.held, amt);
    lemma_sub_units(spec_add(acc.held, amt)->Some_0, amt);
    assert(e1.accounts().contains_key(c));
}

/// Locks are never lifted, and every record for a locked client is refused
/// with `AccountLocked` and changes nothing.
pub proof fn lemma_locked_account_is_inert(
    pre: Engine,
    row: TxRow,
    post: Engine,
    r: Result<(), ProcessingError>,
)
    requires
        pre.step(row, post, r),
    ensures
        pre.locked().subset_of(post.locked()),
        pre.locked().contains(row.client_id) ==> r == Err::<(), ProcessingError>(
            ProcessingError::AccountLocked(row.client_id),
        ) && pre.same_state(post),
{
}

/// A withdrawal of more than the available funds never succeeds, and leaves
/// the account as it was.
pub proof fn lemma_overdraft_rejected(
    pre: Engine,
    row: TxRow,
    post: Engine,
    r: Result<(), ProcessingError>,
)
    requires
        pre.step(row, post, r),
        row.tx_type == TransactionType::Withdrawal,
        row.amount matches Some(a) && a.units() > pre.account_or_empty(row.client_id).available.units(),
    ensures
        r is Err,
        post.account_or_empty(row.client_id) == pre.account_or_empty(row.client_id),
{
}

} // verus!
