//! The token ledger: a mapping of account identifiers to balances plus
//! total-supply bookkeeping. Accounts must be registered before they can
//! hold a balance; deposits, withdrawals and transfers keep every other
//! account's balance untouched.

use vstd::prelude::*;

use crate::account::{AccountId, bytes_eq, valid_account_bytes};
use crate::metadata::LEN_LIMIT;

verus! {

/// Why a ledger operation was refused. Every refusal leaves the ledger
/// exactly as it was.
#[derive(Clone, Copy, Debug, PartialEq, Eq, Structural)]
pub enum LedgerError {
    /// The named account holds no entry in the ledger.
    NotRegistered,
    /// The account to register already holds an entry.
    AlreadyRegistered,
    /// The credited balance would not fit in its integer.
    BalanceOverflow,
    /// The adjusted total supply would not fit in its integer.
    SupplyOverflow,
    /// The debited account holds less than the requested amount.
    NotEnoughBalance,
    /// A transfer names the same account as sender and receiver.
    SameAccount,
    /// A transfer of zero tokens.
    ZeroAmount,
}

pub struct Ledger {
    pub accounts: Vec<(AccountId, u128)>,
    pub total_supply: u128,
}

/// The mathematical shape of a ledger: the entries in their stored
/// order, and the recorded total supply.
#[verifier::ext_equal]
pub struct LedgerView {
    pub accounts: Seq<(Seq<u8>, u128)>,
    pub total_supply: u128,
}

impl View for Ledger {
    type V = LedgerView;

    open spec fn view(&self) -> LedgerView {
        LedgerView {
            accounts: self.accounts@.map_values(|e: (AccountId, u128)| (e.0@, e.1)),
            total_supply: self.total_supply,
        }
    }
}

impl LedgerView {
    /// Entries carry pairwise distinct, syntactically valid account
    /// identifiers, and there are few enough for a four-byte count.
    pub open spec fn wf(self) -> bool {
        &&& forall|i: int, j: int|
                0 <= i < j < self.accounts.len()
                    ==> #[trigger] self.accounts[i].0 != #[trigger] self.accounts[j].0
        &&& forall|i: int|
                0 <= i < self.accounts.len() ==> valid_account_bytes(#[trigger] self.accounts[i].0)
        &&& self.accounts.len() < LEN_LIMIT
    }

    pub open spec fn has_account(self, a: Seq<u8>) -> bool {
        exists|i: int| 0 <= i < self.accounts.len() && (#[trigger] self.accounts[i].0) == a
    }

    pub open spec fn index_of(self, a: Seq<u8>) -> int {
        choose|i: int| 0 <= i < self.accounts.len() && (#[trigger] self.accounts[i].0) == a
    }

    /// The balance an account holds: its entry's balance, or zero when
    /// it is not registered.
    pub open spec fn balance_of(self, a: Seq<u8>) -> u128 {
        if self.has_account(a) {
            self.accounts[self.index_of(a)].1
        } else {
            0
        }
    }
}

/// In a well-formed ledger the entry at any index is the only entry
/// carrying its account identifier.
pub proof fn lemma_index_unique(l: LedgerView, i: int)
    requires
        l.wf(),
        0 <= i < l.accounts.len(),
    ensures
        l.has_account(l.accounts[i].0),
        l.index_of(l.accounts[i].0) == i,
        l.balance_of(l.accounts[i].0) == l.accounts[i].1,
{
    let a = l.accounts[i].0;
    assert(l.has_account(a));
    let j = l.index_of(a);
    if j < i {
        assert(l.accounts[j].0 != l.accounts[i].0);
    } else if j > i {
        assert(l.accounts[i].0 != l.accounts[j].0);
    }
}

impl Ledger {
    pub open spec fn wf(self) -> bool {
        self@.wf()
    }

    /// An empty ledger: no accounts, zero total supply.
    pub fn new() -> (r: Ledger)
        ensures
            r@.accounts.len() == 0,
            r@.total_supply == 0,
            r.wf(),
            forall|a: Seq<u8>| !r@.has_account(a),
    {
        let l = Ledger { accounts: Vec::new(), total_supply: 0 };
        proof {
            assert(l@.accounts =~= Seq::<(Seq<u8>, u128)>::empty());
        }
        l
    }

    /// The index of the entry holding the given identifier, if any.
    fn find_account(&self, key: &Vec<u8>) -> (r: Option<usize>)
        ensures
            r matches Some(i) ==> i < self@.accounts.len() && self@.accounts[i as int].0 == key@,
            r is None ==> !self@.has_account(key@),
    {
        let n = self.accounts.len();
        for i in 0..n
            invariant
                n == self.accounts.len(),
                forall|j: int| 0 <= j < i ==> (#[trigger] self@.accounts[j].0) != key@,
        {
            if bytes_eq(&self.accounts[i].0.bytes, key) {
                return Some(i);
            }
        }
        None
    }

    pub fn ft_total_supply(&self) -> (r: u128)
        ensures
            r == self@.total_supply,
    {
        self.total_supply
    }

    pub fn ft_balance_of(&self, key: &Vec<u8>) -> (r: u128)
        requires
            self.wf(),
        ensures
            r == self@.balance_of(key@),
    {
        match self.find_account(key) {
            Some(i) => {
                proof {
                    lemma_index_unique(self@, i as int);
                }
                self.accounts[i].1
            },
            None => 0,
        }
    }

    /// Adds an entry with balance zero for a yet unregistered account.
    pub fn register_account(&mut self, account: &AccountId) -> (r: Result<(), LedgerError>)
        requires
            old(self).wf(),
            account.wf(),
            old(self)@.accounts.len() + 1 < LEN_LIMIT,
        ensures
            final(self).wf(),
            old(self)@.has_account(account@) ==> {
                &&& r == Result::<(), LedgerError>::Err(LedgerError::AlreadyRegistered)
                &&& final(self)@ == old(self)@
            },
            !old(self)@.has_account(account@) ==> {
                &&& r is Ok
                &&& final(self)@.accounts == old(self)@.accounts.push((account@, 0u128))
                &&& final(self)@.total_supply == old(self)@.total_supply
                &&& final(self)@.has_account(account@)
                &&& final(self)@.balance_of(account@) == 0
                &&& forall|b: Seq<u8>| b != account@
                        ==> #[trigger] final(self)@.balance_of(b) == old(self)@.balance_of(b)
                            && final(self)@.has_account(b) == old(self)@.has_account(b)
            },
    {
        match self.find_account(&account.bytes) {
            Some(_) => Err(LedgerError::AlreadyRegistered),
            None => {
                let ghost pre = self@;
                self.accounts.push((account.duplicate(), 0));
                proof {
                    assert(self@.accounts =~= pre.accounts.push((account@, 0u128)));
                    let n = pre.accounts.len() as int;
                    lemma_index_unique(self@, n);
                    assert forall|b: Seq<u8>| b != account@ implies
                        #[trigger] self@.balance_of(b) == pre.balance_of(b)
                            && self@.has_account(b) == pre.has_account(b) by {
                        if pre.has_account(b) {
                            let i = pre.index_of(b);
                            lemma_index_unique(pre, i);
                            lemma_index_unique(self@, i);
                        } else {
                            if self@.has_account(b) {
                                let i = self@.index_of(b);
                                assert(self@.accounts[i].0 == b);
                                assert(0 <= i < n ==> pre.accounts[i].0 == b);
                            }
                        }
                    }
                }
                Ok(())
            },
        }
    }

    /// Credits the amount to a registered account and to the total
    /// supply.
    pub fn deposit(&mut self, key: &Vec<u8>, amount: u128) -> (r: Result<(), LedgerError>)
        requires
            old(self).wf(),
        ensures
            final(self).wf(),
            r is Err ==> final(self)@ == old(self)@,
            !old(self)@.has_account(key@)
                ==> r == Result::<(), LedgerError>::Err(LedgerError::NotRegistered),
            old(self)@.has_account(key@) && old(self)@.balance_of(key@) + amount > u128::MAX
                ==> r == Result::<(), LedgerError>::Err(LedgerError::BalanceOverflow),
            old(self)@.has_account(key@) && old(self)@.balance_of(key@) + amount <= u128::MAX
                && old(self)@.total_supply + amount > u128::MAX
                ==> r == Result::<(), LedgerError>::Err(LedgerError::SupplyOverflow),
            old(self)@.has_account(key@) && old(self)@.balance_of(key@) + amount <= u128::MAX
                && old(self)@.total_supply + amount <= u128::MAX ==> {
                &&& r is Ok
                &&& final(self)@.total_supply == old(self)@.total_supply + amount
                &&& final(self)@.balance_of(key@) == old(self)@.balance_of(key@) + amount
                &&& forall|b: Seq<u8>| b != key@
                        ==> #[trigger] final(self)@.balance_of(b) == old(self)@.balance_of(b)
                &&& forall|b: Seq<u8>|
                        final(self)@.has_account(b) == old(self)@.has_account(b)
            },
    {
        match self.find_account(key) {
            None => Err(LedgerError::NotRegistered),
            Some(i) => {
                proof {
                    lemma_index_unique(self@, i as int);
                }
                let bal = self.accounts[i].1;
                match bal.checked_add(amount) {
                    None => Err(LedgerError::BalanceOverflow),
                    Some(new_bal) => {
                        match self.total_supply.checked_add(amount) {
                            None => Err(LedgerError::SupplyOverflow),
                            Some(new_total) => {
                                let ghost pre = self@;
                                let acct = self.accounts[i].0.duplicate();
                                self.accounts[i] = (acct, new_bal);
                                self.total_supply = new_total;
                                proof {
                                    assert(self@.accounts =~= pre.accounts.update(
                                        i as int, (key@, new_bal)));
                                    self.lemma_update_at(pre, i as int, key@, new_bal);
                                }
                                Ok(())
                            },
                        }
                    },
                }
            },
        }
    }

    /// After an update at index `i` that keeps the key, lookups at the
    /// key see the new balance and every other key is untouched.
    proof fn lemma_update_at(&self, pre: LedgerView, i: int, key: Seq<u8>, new_bal: u128)
        requires
            pre.wf(),
            0 <= i < pre.accounts.len(),
            pre.accounts[i].0 == key,
            self@.accounts == pre.accounts.update(i, (key, new_bal)),
            self@.total_supply == self@.total_supply,
        ensures
            self@.wf(),
            self@.balance_of(key) == new_bal,
            forall|b: Seq<u8>| b != key
                ==> #[trigger] self@.balance_of(b) == pre.balance_of(b),
            forall|b: Seq<u8>| self@.has_account(b) == pre.has_account(b),
    {
        let post = self@;
        assert forall|k: int| 0 <= k < post.accounts.len() implies
            (#[trigger] post.accounts[k].0) == pre.accounts[k].0 by {}
        assert(post.wf());
        lemma_index_unique(post, i);
        assert forall|b: Seq<u8>| post.has_account(b) == pre.has_account(b) by {
            if pre.has_account(b) {
                let j = pre.index_of(b);
                assert(post.accounts[j].0 == b);
            }
            if post.has_account(b) {
                let j = post.index_of(b);
                assert(pre.accounts[j].0 == b);
            }
        }
        assert forall|b: Seq<u8>| b != key implies
            #[trigger] post.balance_of(b) == pre.balance_of(b) by {
            if pre.has_account(b) {
                let j = pre.index_of(b);
                lemma_index_unique(pre, j);
                assert(post.accounts[j].0 == b);
                lemma_index_unique(post, j);
            }
        }
    }

    /// Debits the amount from a registered account and from the total
    /// supply.
    pub fn withdraw(&mut self, key: &Vec<u8>, amount: u128) -> (r: Result<(), LedgerError>)
        requires
            old(self).wf(),
        ensures
            final(self).wf(),
            r is Err ==> final(self)@ == old(self)@,
            !old(self)@.has_account(key@)
                ==> r == Result::<(), LedgerError>::Err(LedgerError::NotRegistered),
            old(self)@.has_account(key@) && old(self)@.balance_of(key@) < amount
                ==> r == Result::<(), LedgerError>::Err(LedgerError::NotEnoughBalance),
            old(self)@.has_account(key@) && old(self)@.balance_of(key@) >= amount
                && old(self)@.total_supply < amount
                ==> r == Result::<(), LedgerError>::Err(LedgerError::SupplyOverflow),
            old(self)@.has_account(key@) && old(self)@.balance_of(key@) >= amount
                && old(self)@.total_supply >= amount ==> {
                &&& r is Ok
                &&& final(self)@.total_supply == old(self)@.total_supply - amount
                &&& final(self)@.balance_of(key@) == old(self)@.balance_of(key@) - amount
                &&& forall|b: Seq<u8>| b != key@
                        ==> #[trigger] final(self)@.balance_of(b) == old(self)@.balance_of(b)
                &&& forall|b: Seq<u8>|
                        final(self)@.has_account(b) == old(self)@.has_account(b)
            },
    {
        match self.find_account(key) {
            None => Err(LedgerError::NotRegistered),
            Some(i) => {
                proof {
                    lemma_index_unique(self@, i as int);
                }
                let bal = self.accounts[i].1;
                if bal < amount {
                    return Err(LedgerError::NotEnoughBalance);
                }
                if self.total_supply < amount {
                    return Err(LedgerError::SupplyOverflow);
                }
                let new_bal = bal - amount;
                let new_total = self.total_supply - amount;
                let ghost pre = self@;
                let acct = self.accounts[i].0.duplicate();
                self.accounts[i] = (acct, new_bal);
                self.total_supply = new_total;
                proof {
                    assert(self@.accounts =~= pre.accounts.update(i as int, (key@, new_bal)));
                    self.lemma_update_at(pre, i as int, key@, new_bal);
                }
                Ok(())
            },
        }
    }

    /// Moves a positive amount between two distinct registered
    /// accounts; the total supply is unchanged.
    pub fn transfer(&mut self, from: &Vec<u8>, to: &Vec<u8>, amount: u128)
        -> (r: Result<(), LedgerError>)
        requires
            old(self).wf(),
        ensures
            final(self).wf(),
            r is Err ==> final(self)@ == old(self)@,
            from@ == to@ ==> r == Result::<(), LedgerError>::Err(LedgerError::SameAccount),
            from@ != to@ && amount == 0
                ==> r == Result::<(), LedgerError>::Err(LedgerError::ZeroAmount),
            from@ != to@ && amount > 0 && !old(self)@.has_account(from@)
                ==> r == Result::<(), LedgerError>::Err(LedgerError::NotRegistered),
            from@ != to@ && amount > 0 && old(self)@.has_account(from@)
                && old(self)@.balance_of(from@) < amount
                ==> r == Result::<(), LedgerError>::Err(LedgerError::NotEnoughBalance),
            from@ != to@ && amount > 0 && old(self)@.has_account(from@)
                && old(self)@.balance_of(from@) >= amount && !old(self)@.has_account(to@)
                ==> r == Result::<(), LedgerError>::Err(LedgerError::NotRegistered),
            from@ != to@ && amount > 0 && old(self)@.has_account(from@)
                && old(self)@.balance_of(from@) >= amount && old(self)@.has_account(to@)
                && old(self)@.balance_of(to@) + amount > u128::MAX
                ==> r == Result::<(), LedgerError>::Err(LedgerError::BalanceOverflow),
            from@ != to@ && amount > 0 && old(self)@.has_account(from@)
                && old(self)@.balance_of(from@) >= amount && old(self)@.has_account(to@)
                && old(self)@.balance_of(to@) + amount <= u128::MAX ==> {
                &&& r is Ok
                &&& final(self)@.total_supply == old(self)@.total_supply
                &&& final(self)@.balance_of(from@) == old(self)@.balance_of(from@) - amount
                &&& final(self)@.balance_of(to@) == old(self)@.balance_of(to@) + amount
                &&& forall|b: Seq<u8>| b != from@ && b != to@
                        ==> #[trigger] final(self)@.balance_of(b) == old(self)@.balance_of(b)
                &&& forall|b: Seq<u8>|
                        final(self)@.has_account(b) == old(self)@.has_account(b)
            },
    {
        if bytes_eq(from, to) {
            return Err(LedgerError::SameAccount);
        }
        if amount == 0 {
            return Err(LedgerError::ZeroAmount);
        }
        let i = match self.find_account(from) {
            None => {
                return Err(LedgerError::NotRegistered);
            },
            Some(i) => i,
        };
        proof {
            lemma_index_unique(self@, i as int);
        }
        if self.accounts[i].1 < amount {
            return Err(LedgerError::NotEnoughBalance);
        }
        let j = match self.find_account(to) {
            None => {
                return Err(LedgerError::NotRegistered);
            },
            Some(j) => j,
        };
        proof {
            lemma_index_unique(self@, j as int);
        }
        let to_bal = self.accounts[j].1;
        let new_to_bal = match to_bal.checked_add(amount) {
            None => {
                return Err(LedgerError::BalanceOverflow);
            },
            Some(v) => v,
        };
        let ghost pre = self@;
        let from_bal = self.accounts[i].1;
        let from_acct = self.accounts[i].0.duplicate();
        self.accounts[i] = (from_acct, from_bal - amount);
        let ghost mid = self@;
        proof {
            assert(mid.accounts =~= pre.accounts.update(i as int, (from@, (from_bal - amount) as u128)));
            self.lemma_update_at(pre, i as int, from@, (from_bal - amount) as u128);
            lemma_index_unique(mid, j as int);
        }
        let to_acct = self.accounts[j].0.duplicate();
        self.accounts[j] = (to_acct, new_to_bal);
        proof {
            assert(self@.accounts =~= mid.accounts.update(j as int, (to@, new_to_bal)));
            self.lemma_update_at(mid, j as int, to@, new_to_bal);
        }
        Ok(())
    }

    /// Removes an account's entry, burning its balance out of the total
    /// supply, and reports the burned balance.
    pub fn unregister(&mut self, key: &Vec<u8>) -> (r: Result<u128, LedgerError>)
        requires
            old(self).wf(),
        ensures
            final(self).wf(),
            r is Err ==> final(self)@ == old(self)@,
            !old(self)@.has_account(key@)
                ==> r == Result::<u128, LedgerError>::Err(LedgerError::NotRegistered),
            old(self)@.has_account(key@)
                && old(self)@.total_supply < old(self)@.balance_of(key@)
                ==> r == Result::<u128, LedgerError>::Err(LedgerError::SupplyOverflow),
            old(self)@.has_account(key@)
                && old(self)@.total_supply >= old(self)@.balance_of(key@) ==> {
                &&& r == Result::<u128, LedgerError>::Ok(old(self)@.balance_of(key@))
                &&& !final(self)@.has_account(key@)
                &&& final(self)@.total_supply
                    == old(self)@.total_supply - old(self)@.balance_of(key@)
                &&& forall|b: Seq<u8>| b != key@
                        ==> #[trigger] final(self)@.balance_of(b) == old(self)@.balance_of(b)
                            && final(self)@.has_account(b) == old(self)@.has_account(b)
            },
    {
        match self.find_account(key) {
            None => Err(LedgerError::NotRegistered),
            Some(i) => {
                proof {
                    lemma_index_unique(self@, i as int);
                }
                let bal = self.accounts[i].1;
                if self.total_supply < bal {
                    return Err(LedgerError::SupplyOverflow);
                }
                let ghost pre = self@;
                self.accounts.remove(i);
                self.total_supply = self.total_supply - bal;
                proof {
                    assert(self@.accounts =~= pre.accounts.remove(i as int));
                    self.lemma_remove_at(pre, i as int, key@);
                }
                Ok(bal)
            },
        }
    }

    /// After removing the entry at index `i`, its key is gone and every
    /// other key is untouched.
    proof fn lemma_remove_at(&self, pre: LedgerView, i: int, key: Seq<u8>)
        requires
            pre.wf(),
            0 <= i < pre.accounts.len(),
            pre.accounts[i].0 == key,
            self@.accounts == pre.accounts.remove(i),
        ensures
            self@.wf(),
            !self@.has_account(key),
            forall|b: Seq<u8>| b != key
                ==> #[trigger] self@.balance_of(b) == pre.balance_of(b)
                    && self@.has_account(b) == pre.has_account(b),
    {
        let post = self@;
        assert forall|k: int| 0 <= k < post.accounts.len() implies
            (#[trigger] post.accounts[k])
                == (if k < i { pre.accounts[k] } else { pre.accounts[k + 1] }) by {}
        assert(post.wf());
        if post.has_account(key) {
            let j = post.index_of(key);
            assert(post.accounts[j].0 == key);
            if j < i {
                assert(pre.accounts[j].0 == key);
                lemma_index_unique(pre, j);
                lemma_index_unique(pre, i);
                assert(false);
            } else {
                assert(pre.accounts[j + 1].0 == key);
                lemma_index_unique(pre, j + 1);
                lemma_index_unique(pre, i);
                assert(false);
            }
        }
        assert forall|b: Seq<u8>| b != key implies
            #[trigger] post.balance_of(b) == pre.balance_of(b)
                && post.has_account(b) == pre.has_account(b) by {
            if pre.has_account(b) {
                let j = pre.index_of(b);
                lemma_index_unique(pre, j);
                if j < i {
                    assert(post.accounts[j].0 == b);
                    lemma_index_unique(post, j);
                } else {
                    assert(j != i);
                    assert(post.accounts[j - 1].0 == b);
                    lemma_index_unique(post, j - 1);
                }
            } else {
                if post.has_account(b) {
                    let j = post.index_of(b);
                    assert(post.accounts[j].0 == b);
                    if j < i {
                        assert(pre.accounts[j].0 == b);
                    } else {
                        assert(pre.accounts[j + 1].0 == b);
                    }
                    assert(pre.has_account(b));
                    assert(false);
                }
            }
        }
    }
}

} // verus!
