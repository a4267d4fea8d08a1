//! The records that the engine reads and the balances that it keeps.
use crate::amount::Amount;
use vstd::prelude::*;

verus! {

/// The kind of a transaction record.
#[derive(Clone, Copy, Debug, PartialEq, Eq, Structural)]
pub enum TransactionType {
    Deposit,
    Withdrawal,
    Resolve,
    Dispute,
    Chargeback,
}

/// One record of the input stream. `amount` is present for deposits and
/// withdrawals only.
#[derive(Clone, Copy, Debug, PartialEq, Eq, Structural)]
pub struct TxRow {
    pub tx_type: TransactionType,
    pub client_id: u16,
    pub tx_id: u32,
    pub amount: Option<Amount>,
}

/// The balances of one client.
#[derive(Clone, Copy, Debug, PartialEq, Eq, Structural)]
pub struct AccountData {
    pub available: Amount,
    pub held: Amount,
}

/// A recorded deposit or withdrawal and whether it is under dispute.
#[derive(Clone, Copy, Debug, PartialEq, Eq, Structural)]
pub struct Transaction {
    pub amount: Amount,
    pub disputed: bool,
}

impl TxRow {
    pub open spec fn wf(self) -> bool {
        self.amount matches Some(a) ==> a.wf()
    }
}

impl AccountData {
    pub open spec fn wf(self) -> bool {
        self.available.wf() && self.held.wf()
    }

    /// `available + held`, in units of the smallest fraction an amount can hold.
    pub open spec fn total_units(self) -> int {
        self.available.units() + self.held.units()
    }
}

} // verus!
