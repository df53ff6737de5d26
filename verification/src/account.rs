//! One client's account: the balances, and the rules under which each
//! operation changes them.
//!
//! The rules are given as functions on [`AccountView`], the account as plain
//! mathematical data. Each returns the account after the operation, or `None`
//! where the operation does not apply and the account stays as it is. The
//! methods of [`Account`] carry them out.

use crate::amount::Amount;
use crate::transaction::TransactionID;
use std::collections::HashMap;
use vstd::prelude::*;

verus! {

broadcast use vstd::std_specs::hash::group_hash_axioms;

/// What became of an operation.
#[derive(Clone, Copy, Debug, PartialEq, Eq, Structural)]
pub enum Outcome {
    /// The balances were changed as the operation asks.
    Applied,
    /// The operation was not legal in this state, or its result could not be
    /// held exactly. The balances are as they were.
    Ignored,
    /// The record had not the shape of its kind. Nothing was changed.
    Malformed,
}

/// The sum of the values of the amounts in `held`.
pub open spec fn held_sum(held: Map<TransactionID, Amount>) -> int
    decreases held.dom().len(),
    when held.dom().finite()
{
    if held.dom().len() == 0 {
        0
    } else {
        let tx = held.dom().choose();
        held[tx].value() + held_sum(held.remove(tx))
    }
}

/// Any one entry can be taken out of the sum.
pub proof fn lemma_held_sum_remove(held: Map<TransactionID, Amount>, tx: TransactionID)
    requires
        held.dom().finite(),
        held.contains_key(tx),
    ensures
        held_sum(held) == held[tx].value() + held_sum(held.remove(tx)),
    decreases held.dom().len(),
{
    let first = held.dom().choose();
    if first != tx {
        lemma_held_sum_remove(held.remove(first), tx);
        lemma_held_sum_remove(held.remove(tx), first);
        assert(held.remove(first).remove(tx) =~= held.remove(tx).remove(first));
    }
}

/// A new entry adds its value to the sum.
pub proof fn lemma_held_sum_insert(
    held: Map<TransactionID, Amount>,
    tx: TransactionID,
    amount: Amount,
)
    requires
        held.dom().finite(),
        !held.contains_key(tx),
    ensures
        held_sum(held.insert(tx, amount)) == held_sum(held) + amount.value(),
{
    let after = held.insert(tx, amount);
    lemma_held_sum_remove(after, tx);
    assert(after.remove(tx) =~= held);
}

/// An account as mathematical data.
pub struct AccountView {
    /// What the client may withdraw.
    pub available: Amount,
    /// The sum of the amounts under dispute.
    pub held: Amount,
    /// The signed amount of every deposit and withdrawal so far, by
    /// transaction: a deposit with its amount, a withdrawal with its amount
    /// negated.
    pub transactions: Map<TransactionID, Amount>,
    /// The transactions under dispute, each with the amount that is held
    /// for it.
    pub held_transactions: Map<TransactionID, Amount>,
    /// Whether a chargeback has closed the account.
    pub locked: bool,
}

impl AccountView {
    /// The account that a client has before the first deposit.
    pub open spec fn empty() -> AccountView {
        AccountView {
            available: Amount { mantissa: 0, scale: 0 },
            held: Amount { mantissa: 0, scale: 0 },
            transactions: Map::empty(),
            held_transactions: Map::empty(),
            locked: false,
        }
    }

    /// The invariant of an account: every amount is within the limits, only
    /// recorded transactions are under dispute, `held` is the sum of the
    /// amounts under dispute, and the total can be held exactly.
    pub open spec fn wf(self) -> bool {
        &&& self.available.wf()
        &&& self.held.wf()
        &&& self.transactions.dom().finite()
        &&& self.held_transactions.dom().finite()
        &&& forall|tx: TransactionID| #[trigger]
            self.transactions.contains_key(tx) ==> self.transactions[tx].wf()
        &&& forall|tx: TransactionID| #[trigger]
            self.held_transactions.contains_key(tx) ==> self.held_transactions[tx].wf()
                && self.transactions.contains_key(tx)
        &&& self.held.value() == held_sum(self.held_transactions)
        &&& Amount::exact_sum(self.available, self.held) is Some
    }

    /// Available and held together.
    pub open spec fn total(self) -> Amount {
        Amount::exact_sum(self.available, self.held).unwrap()
    }

    /// The account with `available` and `held` replaced, if their total can
    /// still be held exactly.
    pub open spec fn with_balances(self, available: Amount, held: Amount) -> Option<AccountView> {
        if Amount::exact_sum(available, held) is Some {
            Some(AccountView { available, held, ..self })
        } else {
            None
        }
    }

    /// After a deposit: `amount` more is available. A locked account takes
    /// no deposit.
    pub open spec fn deposited(self, amount: Amount) -> Option<AccountView> {
        if self.locked {
            None
        } else {
            match Amount::exact_sum(self.available, amount) {
                Some(available) => self.with_balances(available, self.held),
                None => None,
            }
        }
    }

    /// After a withdrawal: `amount` less is available. Nothing is withdrawn
    /// from a locked account, nor more than is available.
    pub open spec fn withdrawn(self, amount: Amount) -> Option<AccountView> {
        if self.locked || self.available.value() < amount.value() {
            None
        } else {
            match Amount::exact_difference(self.available, amount) {
                Some(available) => self.with_balances(available, self.held),
                None => None,
            }
        }
    }

    /// After a dispute of `tx`: its recorded amount has moved from available
    /// to held. Only a recorded transaction that is not under dispute can be
    /// disputed, and none of a locked account.
    pub open spec fn disputed(self, tx: TransactionID) -> Option<AccountView> {
        if self.locked || !self.transactions.contains_key(tx)
            || self.held_transactions.contains_key(tx) {
            None
        } else {
            let amount = self.transactions[tx];
            match (
                Amount::exact_difference(self.available, amount),
                Amount::exact_sum(self.held, amount),
            ) {
                (Some(available), Some(held)) => match self.with_balances(available, held) {
                    Some(account) => Some(
                        AccountView {
                            held_transactions: self.held_transactions.insert(tx, amount),
                            ..account
                        },
                    ),
                    None => None,
                },
                _ => None,
            }
        }
    }

    /// After a resolve of `tx`: the amount held for it has moved back from
    /// held to available. Only a transaction under dispute can be resolved,
    /// and none of a locked account.
    pub open spec fn resolved(self, tx: TransactionID) -> Option<AccountView> {
        if self.locked || !self.held_transactions.contains_key(tx) {
            None
        } else {
            let amount = self.held_transactions[tx];
            match (
                Amount::exact_sum(self.available, amount),
                Amount::exact_difference(self.held, amount),
            ) {
                (Some(available), Some(held)) => match self.with_balances(available, held) {
                    Some(account) => Some(
                        AccountView {
                            held_transactions: self.held_transactions.remove(tx),
                            ..account
                        },
                    ),
                    None => None,
                },
                _ => None,
            }
        }
    }

    /// After a chargeback of `tx`: the amount held for it has left the
    /// account, available is as it was, and the account is locked. Only a
    /// transaction under dispute can be charged back, and none of a locked
    /// account.
    pub open spec fn charged_back(self, tx: TransactionID) -> Option<AccountView> {
        if self.locked || !self.held_transactions.contains_key(tx) {
            None
        } else {
            let amount = self.held_transactions[tx];
            match Amount::exact_difference(self.held, amount) {
                Some(held) => match self.with_balances(self.available, held) {
                    Some(account) => Some(
                        AccountView {
                            held_transactions: self.held_transactions.remove(tx),
                            locked: true,
                            ..account
                        },
                    ),
                    None => None,
                },
                None => None,
            }
        }
    }

    /// The account with `amount` recorded as the signed amount of `tx`.
    pub open spec fn recorded(self, tx: TransactionID, amount: Amount) -> AccountView {
        AccountView { transactions: self.transactions.insert(tx, amount), ..self }
    }
}

/// The ledger of one client.
#[derive(Debug)]
pub struct Account {
    pub available: Amount,
    pub held: Amount,
    pub transactions: HashMap<TransactionID, Amount>,
    pub held_transactions: HashMap<TransactionID, Amount>,
    pub locked: bool,
}

impl View for Account {
    type V = AccountView;

    open spec fn view(&self) -> AccountView {
        AccountView {
            available: self.available,
            held: self.held,
            transactions: self.transactions@,
            held_transactions: self.held_transactions@,
            locked: self.locked,
        }
    }
}

/// What an operation on an account that was `before` owes: the account that
/// the rule gives and `Applied`, or the same account and `Ignored`.
pub open spec fn carried_out(
    before: AccountView,
    rule: Option<AccountView>,
    after: AccountView,
    outcome: Outcome,
) -> bool {
    match rule {
        Some(account) => after == account && outcome == Outcome::Applied,
        None => after == before && outcome == Outcome::Ignored,
    }
}

impl Default for Account {
    fn default() -> (r: Account)
        ensures
            r@ == AccountView::empty(),
            r.wf(),
    {
        Account {
            available: Amount::zero(),
            held: Amount::zero(),
            transactions: HashMap::new(),
            held_transactions: HashMap::new(),
            locked: false,
        }
    }
}

impl Account {
    /// The invariant of [`AccountView::wf`].
    pub open spec fn wf(&self) -> bool {
        self@.wf()
    }

    /// Adds `amount` to what is available.
    pub fn deposit(&mut self, amount: Amount) -> (r: Outcome)
        requires
            old(self).wf(),
            amount.wf(),
        ensures
            final(self).wf(),
            carried_out(old(self)@, old(self)@.deposited(amount), final(self)@, r),
            r == Outcome::Applied ==> final(self).available.value() == old(self).available.value()
                + amount.value(),
    {
        if self.locked {
            return Outcome::Ignored;
        }
        match self.available.checked_add(amount) {
            Some(available) => {
                if available.checked_add(self.held).is_none() {
                    return Outcome::Ignored;
                }
                self.available = available;
                Outcome::Applied
            },
            None => Outcome::Ignored,
        }
    }

    /// Takes `amount` from what is available, if that much is available.
    pub fn withdraw(&mut self, amount: Amount) -> (r: Outcome)
        requires
            old(self).wf(),
            amount.wf(),
        ensures
            final(self).wf(),
            carried_out(old(self)@, old(self)@.withdrawn(amount), final(self)@, r),
            r == Outcome::Applied ==> final(self).available.value() == old(self).available.value()
                - amount.value() && final(self).available.value() >= 0,
    {
        if self.locked || !self.available.ge(amount) {
            return Outcome::Ignored;
        }
        match self.available.checked_sub(amount) {
            Some(available) => {
                if available.checked_add(self.held).is_none() {
                    return Outcome::Ignored;
                }
                self.available = available;
                Outcome::Applied
            },
            None => Outcome::Ignored,
        }
    }

    /// Opens a dispute of `transaction`: its recorded amount is held.
    pub fn dispute(&mut self, transaction: TransactionID) -> (r: Outcome)
        requires
            old(self).wf(),
        ensures
            final(self).wf(),
            carried_out(old(self)@, old(self)@.disputed(transaction), final(self)@, r),
            r == Outcome::Applied ==> ({
                let amount = old(self).transactions@[transaction].value();
                &&& final(self).available.value() == old(self).available.value() - amount
                &&& final(self).held.value() == old(self).held.value() + amount
            }),
    {
        if self.locked || self.held_transactions.contains_key(&transaction) {
            return Outcome::Ignored;
        }
        let amount = match self.transactions.get(&transaction) {
            Some(amount) => *amount,
            None => {
                return Outcome::Ignored;
            },
        };
        match (self.available.checked_sub(amount), self.held.checked_add(amount)) {
            (Some(available), Some(held)) => {
                if available.checked_add(held).is_none() {
                    return Outcome::Ignored;
                }
                proof {
                    lemma_held_sum_insert(self@.held_transactions, transaction, amount);
                }
                self.available = available;
                self.held = held;
                self.held_transactions.insert(transaction, amount);
                Outcome::Applied
            },
            _ => Outcome::Ignored,
        }
    }

    /// Closes the dispute of `transaction` and releases what was held for it.
    pub fn resolve(&mut self, transaction: TransactionID) -> (r: Outcome)
        requires
            old(self).wf(),
        ensures
            final(self).wf(),
            carried_out(old(self)@, old(self)@.resolved(transaction), final(self)@, r),
            r == Outcome::Applied ==> ({
                let amount = old(self).held_transactions@[transaction].value();
                &&& final(self).available.value() == old(self).available.value() + amount
                &&& final(self).held.value() == old(self).held.value() - amount
            }),
    {
        if self.locked {
            return Outcome::Ignored;
        }
        let amount = match self.held_transactions.get(&transaction) {
            Some(amount) => *amount,
            None => {
                return Outcome::Ignored;
            },
        };
        match (self.available.checked_add(amount), self.held.checked_sub(amount)) {
            (Some(available), Some(held)) => {
                if available.checked_add(held).is_none() {
                    return Outcome::Ignored;
                }
                proof {
                    lemma_held_sum_remove(self@.held_transactions, transaction);
                }
                self.available = available;
                self.held = held;
                self.held_transactions.remove(&transaction);
                Outcome::Applied
            },
            _ => Outcome::Ignored,
        }
    }

    /// Closes the dispute of `transaction` by reversal: what was held for it
    /// leaves the account, and the account is locked.
    pub fn chargeback(&mut self, transaction: TransactionID) -> (r: Outcome)
        requires
            old(self).wf(),
        ensures
            final(self).wf(),
            carried_out(old(self)@, old(self)@.charged_back(transaction), final(self)@, r),
            r == Outcome::Applied ==> ({
                let amount = old(self).held_transactions@[transaction].value();
                &&& final(self).available == old(self).available
                &&& final(self).held.value() == old(self).held.value() - amount
            }),
            final(self).locked == (old(self).locked || r == Outcome::Applied),
    {
        if self.locked {
            return Outcome::Ignored;
        }
        let amount = match self.held_transactions.get(&transaction) {
            Some(amount) => *amount,
            None => {
                return Outcome::Ignored;
            },
        };
        match self.held.checked_sub(amount) {
            Some(held) => {
                if self.available.checked_add(held).is_none() {
                    return Outcome::Ignored;
                }
                proof {
                    lemma_held_sum_remove(self@.held_transactions, transaction);
                }
                self.held = held;
                self.held_transactions.remove(&transaction);
                self.locked = true;
                Outcome::Applied
            },
            None => Outcome::Ignored,
        }
    }
}

} // verus!
