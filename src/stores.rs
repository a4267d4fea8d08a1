//! The transaction ledger, the account ledger and the lock registry.
use crate::amount::Amount;
use crate::models::{AccountData, Transaction};
use std::collections::{HashMap, HashSet};
use vstd::prelude::*;

verus! {

broadcast use vstd::std_specs::hash::group_hash_axioms;

/// Why a store refused a change.
#[derive(Clone, Copy, Debug, PartialEq, Eq, Structural)]
pub enum DataError {
    AlreadyExists,
}

/// Accepted deposits and withdrawals by transaction id, and the ids under
/// dispute.
pub struct TransactionStore {
    transactions: HashMap<u32, Amount>,
    disputed_transactions: HashSet<u32>,
}

impl TransactionStore {
    /// The recorded amount of each transaction id.
    pub closed spec fn amounts(&self) -> Map<u32, Amount> {
        self.transactions@
    }

    /// The transaction ids under dispute.
    pub closed spec fn disputed(&self) -> Set<u32> {
        self.disputed_transactions@
    }

    pub open spec fn wf(&self) -> bool {
        forall|id: u32| #[trigger] self.amounts().contains_key(id) ==> self.amounts()[id].wf()
    }

    pub fn new() -> (r: Self)
        ensures
            r.wf(),
            r.amounts() == Map::<u32, Amount>::empty(),
            r.disputed() == Set::<u32>::empty(),
    {
        TransactionStore { transactions: HashMap::new(), disputed_transactions: HashSet::new() }
    }

    pub fn find_by_id(&self, id: &u32) -> (r: Option<Transaction>)
        ensures
            r == (if self.amounts().contains_key(*id) {
                Some(
                    Transaction {
                        amount: self.amounts()[*id],
                        disputed: self.disputed().contains(*id),
                    },
                )
            } else {
                None::<Transaction>
            }),
    {
        match self.transactions.get(id) {
            Some(amount) => Some(
                Transaction { amount: *amount, disputed: self.disputed_transactions.contains(id) },
            ),
            None => None,
        }
    }

    pub fn insert_tx(&mut self, id: u32, amount: Amount) -> (r: Result<(), DataError>)
        requires
            old(self).wf(),
            amount.wf(),
        ensures
            final(self).wf(),
            final(self).disputed() == old(self).disputed(),
            old(self).amounts().contains_key(id) ==> r == Err::<(), DataError>(
                DataError::AlreadyExists,
            ) && final(self).amounts() == old(self).amounts(),
            !old(self).amounts().contains_key(id) ==> r == Ok::<(), DataError>(())
                && final(self).amounts() == old(self).amounts().insert(id, amount),
    {
        if self.transactions.contains_key(&id) {
            Err(DataError::AlreadyExists)
        } else {
            self.transactions.insert(id, amount);
            assert forall|k: u32| #[trigger] self.amounts().contains_key(k) implies self.amounts()[
                k
            ].wf() by {
                if k != id {
                    assert(old(self).amounts().contains_key(k));
                }
            }
            Ok(())
        }
    }

    pub fn dispute_transaction(&mut self, id: u32)
        ensures
            final(self).amounts() == old(self).amounts(),
            final(self).disputed() == old(self).disputed().insert(id),
    {
        self.disputed_transactions.insert(id);
    }

    pub fn resolve_transaction(&mut self, id: &u32)
        ensures
            final(self).amounts() == old(self).amounts(),
            final(self).disputed() == old(self).disputed().remove(*id),
    {
        if self.disputed_transactions.contains(id) {
            self.disputed_transactions.remove(id);
        }
    }
}

/// The balances of each client, with the client ids in the order in which
/// their accounts were opened.
pub struct AccountStore {
    accounts: HashMap<u16, AccountData>,
    ids: Vec<u16>,
}

impl AccountStore {
    /// The account of each client id.
    pub closed spec fn accounts(&self) -> Map<u16, AccountData> {
        self.accounts@
    }

    /// The client ids in the order in which their accounts were opened.
    pub closed spec fn ids(&self) -> Seq<u16> {
        self.ids@
    }

    pub open spec fn wf(&self) -> bool {
        &&& self.ids().no_duplicates()
        &&& forall|id: u16|
            (#[trigger] self.accounts().contains_key(id)) <==> self.ids().contains(id)
        &&& forall|id: u16| #[trigger]
            self.accounts().contains_key(id) ==> self.accounts()[id].wf()
    }

    pub fn new() -> (r: Self)
        ensures
            r.wf(),
            r.accounts() == Map::<u16, AccountData>::empty(),
    {
        AccountStore { accounts: HashMap::new(), ids: Vec::new() }
    }

    pub fn find_by_id(&self, id: &u16) -> (r: Option<AccountData>)
        ensures
            r == (if self.accounts().contains_key(*id) {
                Some(self.accounts()[*id])
            } else {
                None::<AccountData>
            }),
    {
        match self.accounts.get(id) {
            Some(data) => Some(*data),
            None => None,
        }
    }

    pub fn add_or_update_account(&mut self, id: &u16, data: &AccountData)
        requires
            old(self).wf(),
            data.wf(),
        ensures
            final(self).wf(),
            final(self).accounts() == old(self).accounts().insert(*id, *data),
    {
        let ghost old_ids = self.ids@;
        let present = self.accounts.contains_key(id);
        assert(present == old(self).accounts().contains_key(*id));
        if !present {
            self.ids.push(*id);
            proof {
                assert(!old_ids.contains(*id));
                assert(self.ids@[old_ids.len() as int] == *id);
                assert forall|i: int, j: int| 0 <= i < j < self.ids@.len() implies self.ids@[i]
                    != self.ids@[j] by {
                    if j == old_ids.len() {
                        assert(old_ids[i] == self.ids@[i]);
                    }
                }
            }
        }
        self.accounts.insert(*id, *data);
        proof {
            assert(self.ids@.len() > 0 && self.ids@.contains(*id)) by {
                if old_ids.contains(*id) {
                    let i = choose|i: int| 0 <= i < old_ids.len() && old_ids[i] == *id;
                    assert(self.ids@[i] == *id);
                } else {
                    assert(self.ids@[old_ids.len() as int] == *id);
                }
            }
            assert forall|k: u16|
                (#[trigger] self.accounts().contains_key(k)) <==> self.ids().contains(k) by {
                if k != *id {
                    if old_ids.contains(k) {
                        let i = choose|i: int| 0 <= i < old_ids.len() && old_ids[i] == k;
                        assert(self.ids@[i] == k);
                    }
                    if self.ids@.contains(k) {
                        let i = choose|i: int| 0 <= i < self.ids@.len() && self.ids@[i] == k;
                        assert(old_ids[i] == k);
                    }
                }
            }
            assert forall|k: u16| #[trigger] self.accounts().contains_key(k) implies self.accounts()[
                k
            ].wf() by {
                if k != *id {
                    assert(old(self).accounts().contains_key(k));
                }
            }
        }
    }

    /// Every account with its client id, each client once.
    pub fn find_all(&self) -> (r: Vec<(u16, AccountData)>)
        requires
            self.wf(),
        ensures
            r@.len() == self.accounts().dom().len(),
            forall|i: int| 0 <= i < r@.len() ==> self.accounts().contains_key(#[trigger] r@[i].0)
                && self.accounts()[r@[i].0] == r@[i].1,
            forall|id: u16| #[trigger]
                self.accounts().contains_key(id) ==> exists|i: int|
                    0 <= i < r@.len() && #[trigger] r@[i].0 == id,
            forall|i: int, j: int| 0 <= i < j < r@.len() ==> r@[i].0 != r@[j].0,
    {
        let mut out: Vec<(u16, AccountData)> = Vec::new();
        let mut i: usize = 0;
        while i < self.ids.len()
            invariant
                self.wf(),
                i <= self.ids@.len(),
                out@.len() == i,
                forall|k: int| 0 <= k < i ==> (#[trigger] out@[k]).0 == self.ids@[k]
                    && self.accounts()[self.ids@[k]] == out@[k].1,
            decreases self.ids@.len() - i,
        {
            let id = self.ids[i];
            assert(self.ids@[i as int] == id);
            assert(self.ids().contains(id));
            assert(self.accounts().contains_key(id) <==> self.ids().contains(id));
            let data = *self.accounts.get(&id).unwrap();
            out.push((id, data));
            i = i + 1;
        }
        proof {
            self.ids@.unique_seq_to_set();
            assert(self.ids@.to_set() =~= self.accounts().dom());
            assert forall|id: u16| #[trigger] self.accounts().contains_key(id) implies exists|k: int|
                0 <= k < out@.len() && #[trigger] out@[k].0 == id by {
                assert(self.ids().contains(id));
                let k = choose|k: int| 0 <= k < self.ids@.len() && self.ids@[k] == id;
                assert(out@[k].0 == id);
            }
        }
        out
    }
}

/// The client ids whose accounts are frozen.
pub struct LockedAccountStore {
    locked_accounts: HashSet<u16>,
}

impl LockedAccountStore {
    /// The locked client ids.
    pub closed spec fn locked(&self) -> Set<u16> {
        self.locked_accounts@
    }

    pub fn new() -> (r: Self)
        ensures
            r.locked() == Set::<u16>::empty(),
    {
        LockedAccountStore { locked_accounts: HashSet::new() }
    }

    pub fn lock_account(&mut self, id: u16)
        ensures
            final(self).locked() == old(self).locked().insert(id),
    {
        self.locked_accounts.insert(id);
    }

    pub fn is_account_locked(&self, id: &u16) -> (r: bool)
        ensures
            r == self.locked().contains(*id),
    {
        self.locked_accounts.contains(id)
    }
}

} // verus!
