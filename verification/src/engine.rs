//! The engine: every client's account, and the rule by which a transaction
//! changes them.
//!
//! The rule is [`step`], a function on the ledger as mathematical data: a map
//! from clients to accounts. [`Engine::handle_transaction`] carries it out.

use crate::account::{Account, AccountView, Outcome};
use crate::amount::{lemma_negated_value, Amount};
use crate::output::{is_snapshot, AccountOutput};
use crate::transaction::{ClientID, Transaction, TransactionID, TransactionType};
use std::collections::HashMap;
use vstd::prelude::*;

verus! {

broadcast use vstd::std_specs::hash::group_hash_axioms;

/// All accounts, by client.
pub type Ledger = Map<ClientID, AccountView>;

/// A deposit: the client's account, or a new one, takes the amount and
/// records it under `tx`. Where the account does not take it, nothing is
/// changed and no account is made.
pub open spec fn deposit_step(
    ledger: Ledger,
    client: ClientID,
    tx: TransactionID,
    amount: Amount,
) -> (Ledger, Outcome) {
    let account = if ledger.contains_key(client) {
        ledger[client]
    } else {
        AccountView::empty()
    };
    match account.deposited(amount) {
        Some(after) => (ledger.insert(client, after.recorded(tx, amount)), Outcome::Applied),
        None => (ledger, Outcome::Ignored),
    }
}

/// A withdrawal: nothing without an account, and nothing on a locked one.
/// Else the account gives the amount if it has it, and in either case
/// records the negated amount under `tx`: the record is of the attempt.
pub open spec fn withdrawal_step(
    ledger: Ledger,
    client: ClientID,
    tx: TransactionID,
    amount: Amount,
) -> (Ledger, Outcome) {
    if !ledger.contains_key(client) || ledger[client].locked {
        (ledger, Outcome::Ignored)
    } else {
        match ledger[client].withdrawn(amount) {
            Some(after) => (
                ledger.insert(client, after.recorded(tx, amount.negated())),
                Outcome::Applied,
            ),
            None => (
                ledger.insert(client, ledger[client].recorded(tx, amount.negated())),
                Outcome::Ignored,
            ),
        }
    }
}

/// A dispute, a resolve or a chargeback, given as what the account's rule
/// makes of the client's account: nothing without an account, else the
/// account after the operation in place of the account before.
pub open spec fn account_step(
    ledger: Ledger,
    client: ClientID,
    rule: spec_fn(AccountView) -> Option<AccountView>,
) -> (Ledger, Outcome) {
    if !ledger.contains_key(client) {
        (ledger, Outcome::Ignored)
    } else {
        match rule(ledger[client]) {
            Some(after) => (ledger.insert(client, after), Outcome::Applied),
            None => (ledger, Outcome::Ignored),
        }
    }
}

/// What a transaction makes of the ledger, and what became of it. A
/// transaction that is not well shaped changes nothing and is `Malformed`.
pub open spec fn step(ledger: Ledger, transaction: Transaction) -> (Ledger, Outcome) {
    let client = transaction.client;
    let tx = transaction.tx;
    match (transaction.kind, transaction.amount) {
        (TransactionType::Deposit, Some(amount)) => deposit_step(ledger, client, tx, amount),
        (TransactionType::Withdrawal, Some(amount)) => withdrawal_step(ledger, client, tx, amount),
        (TransactionType::Dispute, None) => account_step(
            ledger,
            client,
            |account: AccountView| account.disputed(tx),
        ),
        (TransactionType::Resolve, None) => account_step(
            ledger,
            client,
            |account: AccountView| account.resolved(tx),
        ),
        (TransactionType::Chargeback, None) => account_step(
            ledger,
            client,
            |account: AccountView| account.charged_back(tx),
        ),
        _ => (ledger, Outcome::Malformed),
    }
}

/// The ledger after all of `transactions`, applied in their order.
pub open spec fn replay(ledger: Ledger, transactions: Seq<Transaction>) -> Ledger
    decreases transactions.len(),
{
    if transactions.len() == 0 {
        ledger
    } else {
        step(replay(ledger, transactions.drop_last()), transactions.last()).0
    }
}

/// Every account of the ledger meets its invariant.
pub open spec fn ledger_wf(ledger: Ledger) -> bool {
    forall|client: ClientID| #[trigger] ledger.contains_key(client) ==> ledger[client].wf()
}

/// The accounts of all clients seen so far.
#[derive(Debug)]
pub struct Engine {
    pub accounts: HashMap<ClientID, Account>,
}

impl View for Engine {
    type V = Ledger;

    open spec fn view(&self) -> Ledger {
        self.accounts@.map_values(|account: Account| account@)
    }
}

impl Default for Engine {
    fn default() -> (r: Engine)
        ensures
            r@ == Ledger::empty(),
            r.wf(),
    {
        let r = Engine { accounts: HashMap::new() };
        r
    }
}

impl Engine {
    /// Every account meets its invariant.
    pub open spec fn wf(&self) -> bool {
        ledger_wf(self@)
    }

    /// Applies one transaction: routes it to the account of its client and
    /// carries out the operation of its kind there.
    pub fn handle_transaction(&mut self, transaction: Transaction) -> (r: Outcome)
        requires
            old(self).wf(),
            transaction.wf(),
        ensures
            final(self).wf(),
            (final(self)@, r) == step(old(self)@, transaction),
    {
        let client = transaction.client;
        let tx = transaction.tx;
        match (transaction.kind, transaction.amount) {
            (TransactionType::Deposit, Some(amount)) => self.handle_deposit(client, tx, amount),
            (TransactionType::Withdrawal, Some(amount)) => self.handle_withdrawal(
                client,
                tx,
                amount,
            ),
            (TransactionType::Dispute, None) => self.handle_dispute(client, tx),
            (TransactionType::Resolve, None) => self.handle_resolve(client, tx),
            (TransactionType::Chargeback, None) => self.handle_chargeback(client, tx),
            _ => Outcome::Malformed,
        }
    }

    /// The snapshot of every account, in ascending order of the clients:
    /// the clients are looked up one after the other, from the smallest.
    pub fn output(&self) -> (r: Vec<AccountOutput>)
        requires
            self.wf(),
        ensures
            is_snapshot(r@, self@),
    {
        let mut rows: Vec<AccountOutput> = Vec::new();
        let mut next: u32 = 0;
        while next <= 0xffff
            invariant
                next <= 0x1_0000,
                self.wf(),
                forall|i: int|
                    0 <= i < rows.len() ==> self@.contains_key(#[trigger] rows[i].client)
                        && rows[i] == AccountOutput::of(rows[i].client, self@[rows[i].client])
                        && rows[i].client < next,
                forall|client: ClientID|
                    self@.contains_key(client) && client < next ==> exists|i: int|
                        0 <= i < rows.len() && #[trigger] rows[i].client == client,
                forall|i: int, j: int|
                    0 <= i < j < rows.len() ==> (#[trigger] rows[i].client) < (
                    #[trigger] rows[j].client),
            decreases 0x1_0000 - next,
        {
            let client: ClientID = next as ClientID;
            let ghost before = rows@;
            match self.accounts.get(&client) {
                Some(account) => {
                    assert(self@.contains_key(client));
                    rows.push(AccountOutput::from((&client, account)));
                    assert(rows[before.len() as int].client == client);
                    assert forall|known: ClientID|
                        self@.contains_key(known) && known < next + 1 implies exists|i: int|
                        0 <= i < rows.len() && #[trigger] rows[i].client == known by {
                        if known < next {
                            let i = choose|i: int|
                                0 <= i < before.len() && #[trigger] before[i].client == known;
                            assert(rows[i].client == known);
                        }
                    }
                },
                None => {},
            }
            next = next + 1;
        }
        rows
    }

    fn handle_deposit(
        &mut self,
        client_id: ClientID,
        transaction_id: TransactionID,
        amount: Amount,
    ) -> (r: Outcome)
        requires
            old(self).wf(),
            amount.wf(),
        ensures
            final(self).wf(),
            (final(self)@, r) == deposit_step(old(self)@, client_id, transaction_id, amount),
    {
        let (mut account, known) = match self.accounts.remove(&client_id) {
            Some(account) => (account, true),
            None => (Account::default(), false),
        };
        let outcome = account.deposit(amount);
        match outcome {
            Outcome::Applied => {
                account.transactions.insert(transaction_id, amount);
                self.accounts.insert(client_id, account);
                assert(self@ =~= deposit_step(old(self)@, client_id, transaction_id, amount).0);
            },
            _ => {
                if known {
                    self.accounts.insert(client_id, account);
                }
            },
        }
        outcome
    }

    fn handle_withdrawal(
        &mut self,
        client_id: ClientID,
        transaction_id: TransactionID,
        amount: Amount,
    ) -> (r: Outcome)
        requires
            old(self).wf(),
            amount.wf(),
        ensures
            final(self).wf(),
            (final(self)@, r) == withdrawal_step(old(self)@, client_id, transaction_id, amount),
    {
        match self.accounts.remove(&client_id) {
            Some(mut account) => {
                assert(old(self)@.contains_key(client_id));
                let outcome = account.withdraw(amount);
                if !account.locked {
                    proof {
                        lemma_negated_value(amount);
                    }
                    account.transactions.insert(transaction_id, amount.neg());
                }
                self.accounts.insert(client_id, account);
                assert(self@ =~= withdrawal_step(
                    old(self)@,
                    client_id,
                    transaction_id,
                    amount,
                ).0);
                outcome
            },
            None => {
                assert(self@ =~= old(self)@);
                Outcome::Ignored
            },
        }
    }

    fn handle_dispute(&mut self, client_id: ClientID, transaction_id: TransactionID) -> (r: Outcome)
        requires
            old(self).wf(),
        ensures
            final(self).wf(),
            (final(self)@, r) == account_step(
                old(self)@,
                client_id,
                |account: AccountView| account.disputed(transaction_id),
            ),
    {
        match self.accounts.remove(&client_id) {
            Some(mut account) => {
                assert(old(self)@.contains_key(client_id));
                let outcome = account.dispute(transaction_id);
                self.accounts.insert(client_id, account);
                assert(self@ =~= account_step(
                    old(self)@,
                    client_id,
                    |account: AccountView| account.disputed(transaction_id),
                ).0);
                outcome
            },
            None => {
                assert(self@ =~= old(self)@);
                Outcome::Ignored
            },
        }
    }

    fn handle_resolve(&mut self, client_id: ClientID, transaction_id: TransactionID) -> (r: Outcome)
        requires
            old(self).wf(),
        ensures
            final(self).wf(),
            (final(self)@, r) == account_step(
                old(self)@,
                client_id,
                |account: AccountView| account.resolved(transaction_id),
            ),
    {
        match self.accounts.remove(&client_id) {
            Some(mut account) => {
                assert(old(self)@.contains_key(client_id));
                let outcome = account.resolve(transaction_id);
                self.accounts.insert(client_id, account);
                assert(self@ =~= account_step(
                    old(self)@,
                    client_id,
                    |account: AccountView| account.resolved(transaction_id),
                ).0);
                outcome
            },
            None => {
                assert(self@ =~= old(self)@);
                Outcome::Ignored
            },
        }
    }

    fn handle_chargeback(&mut self, client_id: ClientID, transaction_id: TransactionID) -> (r:
        Outcome)
        requires
            old(self).wf(),
        ensures
            final(self).wf(),
            (final(self)@, r) == account_step(
                old(self)@,
                client_id,
                |account: AccountView| account.charged_back(transaction_id),
            ),
    {
        match self.accounts.remove(&client_id) {
            Some(mut account) => {
                assert(old(self)@.contains_key(client_id));
                let outcome = account.chargeback(transaction_id);
                self.accounts.insert(client_id, account);
                assert(self@ =~= account_step(
                    old(self)@,
                    client_id,
                    |account: AccountView| account.charged_back(transaction_id),
                ).0);
                outcome
            },
            None => {
                assert(self@ =~= old(self)@);
                Outcome::Ignored
            },
        }
    }
}

} // verus!
