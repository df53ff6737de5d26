//! What holds of the ledger whatever the transactions are.
//!
//! Each law is a proof about the rules of the account ([`AccountView`]) and of
//! the engine ([`step`], [`replay`]), which the executable code carries out.

use crate::account::{held_sum, lemma_held_sum_insert, lemma_held_sum_remove, AccountView, Outcome};
use crate::amount::{
    lemma_exact_difference_value,
    lemma_exact_sum_value,
    lemma_negated_value,
    Amount,
};
use crate::engine::{ledger_wf, replay, step, Ledger};
use crate::output::AccountOutput;
use crate::transaction::{ClientID, Transaction, TransactionID, TransactionType};
use vstd::prelude::*;

verus! {

/// What each rule of the account does to the balances, in numbers, where it
/// applies: a deposit adds to available; a withdrawal takes from it; a
/// dispute moves the recorded amount from available to held; a resolve moves
/// the held amount back; a chargeback takes the held amount out of held and
/// leaves available alone. Every rule keeps the invariant of the account.
pub proof fn law_rules_in_numbers(account: AccountView, amount: Amount, tx: TransactionID)
    requires
        account.wf(),
        amount.wf(),
    ensures
        match account.deposited(amount) {
            Some(after) => after.wf() && after.available.value() == account.available.value()
                + amount.value() && after.held == account.held,
            None => true,
        },
        match account.withdrawn(amount) {
            Some(after) => after.wf() && after.available.value() == account.available.value()
                - amount.value() && after.held == account.held,
            None => true,
        },
        match account.disputed(tx) {
            Some(after) => after.wf() && after.available.value() == account.available.value()
                - account.transactions[tx].value() && after.held.value() == account.held.value()
                + account.transactions[tx].value(),
            None => true,
        },
        match account.resolved(tx) {
            Some(after) => after.wf() && after.available.value() == account.available.value()
                + account.held_transactions[tx].value() && after.held.value()
                == account.held.value() - account.held_transactions[tx].value(),
            None => true,
        },
        match account.charged_back(tx) {
            Some(after) => after.wf() && after.available == account.available
                && after.held.value() == account.held.value()
                - account.held_transactions[tx].value() && after.locked,
            None => true,
        },
        account.recorded(tx, amount).wf(),
{
    if account.deposited(amount) is Some {
        lemma_exact_sum_value(account.available, amount);
    }
    if account.withdrawn(amount) is Some {
        lemma_exact_difference_value(account.available, amount);
    }
    if account.disputed(tx) is Some {
        let recorded = account.transactions[tx];
        lemma_exact_difference_value(account.available, recorded);
        lemma_exact_sum_value(account.held, recorded);
        lemma_held_sum_insert(account.held_transactions, tx, recorded);
    }
    if account.resolved(tx) is Some {
        let held = account.held_transactions[tx];
        lemma_exact_sum_value(account.available, held);
        lemma_exact_difference_value(account.held, held);
        lemma_held_sum_remove(account.held_transactions, tx);
    }
    if account.charged_back(tx) is Some {
        let held = account.held_transactions[tx];
        lemma_exact_difference_value(account.held, held);
        lemma_held_sum_remove(account.held_transactions, tx);
    }
}

/// A withdrawal never overdraws: it is carried out only where the amount
/// is available, and what is available afterwards is not negative.
pub proof fn law_withdrawal_never_overdraws(account: AccountView, amount: Amount)
    requires
        account.wf(),
        amount.wf(),
    ensures
        match account.withdrawn(amount) {
            Some(after) => account.available.value() >= amount.value()
                && after.available.value() == account.available.value() - amount.value()
                && after.available.value() >= 0,
            None => true,
        },
{
    law_rules_in_numbers(account, amount, 0);
}

/// A withdrawal handled by the engine leaves what is available to the client
/// either not negative or as it was, and touches no other client.
pub proof fn law_engine_withdrawal_never_overdraws(
    ledger: Ledger,
    client: ClientID,
    tx: TransactionID,
    amount: Amount,
)
    requires
        ledger_wf(ledger),
        amount.wf(),
    ensures
        ({
            let after = step(
                ledger,
                Transaction { kind: TransactionType::Withdrawal, client, tx, amount: Some(amount) },
            ).0;
            &&& after.dom() == ledger.dom()
            &&& forall|other: ClientID|
                other != client && ledger.contains_key(other) ==> #[trigger] after[other]
                    == ledger[other]
            &&& ledger.contains_key(client) ==> after[client].available.value() >= 0
                || after[client].available == ledger[client].available
        }),
{
    if ledger.contains_key(client) {
        law_withdrawal_never_overdraws(ledger[client], amount);
    }
}

/// In the snapshot of an account that meets its invariant, held is the sum
/// of the amounts under dispute, and total is available and held together.
pub proof fn law_total_is_available_plus_held(client: ClientID, account: AccountView)
    requires
        account.wf(),
    ensures
        AccountOutput::of(client, account).held.value() == held_sum(account.held_transactions),
        AccountOutput::of(client, account).total.value() == AccountOutput::of(
            client,
            account,
        ).available.value() + AccountOutput::of(client, account).held.value(),
{
    lemma_exact_sum_value(account.available, account.held);
}

/// Whatever the transaction, every account meets its invariant after it, if
/// every account did before: so the law of the total holds after every
/// operation, for every account.
pub proof fn law_step_keeps_the_invariant(ledger: Ledger, transaction: Transaction)
    requires
        ledger_wf(ledger),
        transaction.wf(),
    ensures
        ledger_wf(step(ledger, transaction).0),
{
    let client = transaction.client;
    let tx = transaction.tx;
    let before = if ledger.contains_key(client) {
        ledger[client]
    } else {
        AccountView::empty()
    };
    match transaction.amount {
        Some(amount) => {
            lemma_negated_value(amount);
            law_rules_in_numbers(before, amount, tx);
            if before.deposited(amount) is Some {
                law_rules_in_numbers(before.deposited(amount).unwrap(), amount, tx);
            }
            if before.withdrawn(amount) is Some {
                law_rules_in_numbers(before.withdrawn(amount).unwrap(), amount.negated(), tx);
            }
            law_rules_in_numbers(before, amount.negated(), tx);
        },
        None => {
            law_rules_in_numbers(before, Amount { mantissa: 0, scale: 0 }, tx);
        },
    }
}

/// A transaction is `Malformed` exactly when it is not well shaped, and then
/// the ledger is as it was.
pub proof fn law_malformed_is_dropped(ledger: Ledger, transaction: Transaction)
    ensures
        (step(ledger, transaction).1 == Outcome::Malformed) == !transaction.well_shaped(),
        !transaction.well_shaped() ==> step(ledger, transaction).0 == ledger,
{
}

/// A transaction touches no account but that of its client, and only a
/// deposit opens an account.
pub proof fn law_step_touches_one_account(ledger: Ledger, transaction: Transaction)
    ensures
        forall|other: ClientID|
            other != transaction.client ==> (#[trigger] step(ledger, transaction).0.contains_key(
                other,
            )) == ledger.contains_key(other),
        forall|other: ClientID|
            other != transaction.client && ledger.contains_key(other) ==> #[trigger] step(
                ledger,
                transaction,
            ).0[other] == ledger[other],
        ledger.contains_key(transaction.client) ==> step(ledger, transaction).0.contains_key(
            transaction.client,
        ),
        transaction.kind != TransactionType::Deposit ==> step(ledger, transaction).0.dom()
            == ledger.dom(),
{
}

/// The first deposit of a client opens the account: it holds the amount as
/// available and nothing else, and has the deposit on record.
pub proof fn law_first_deposit_opens_the_account(
    ledger: Ledger,
    client: ClientID,
    tx: TransactionID,
    amount: Amount,
)
    requires
        !ledger.contains_key(client),
    ensures
        step(
            ledger,
            Transaction { kind: TransactionType::Deposit, client, tx, amount: Some(amount) },
        ) == (
            ledger.insert(
                client,
                AccountView {
                    available: amount,
                    held: Amount { mantissa: 0, scale: 0 },
                    transactions: Map::empty().insert(tx, amount),
                    held_transactions: Map::empty(),
                    locked: false,
                },
            ),
            Outcome::Applied,
        ),
{
}

/// A dispute of a transaction that the client's account has no record of, or
/// that is under dispute already, or of a client without an account, changes
/// nothing.
pub proof fn law_dispute_without_effect(ledger: Ledger, client: ClientID, tx: TransactionID)
    requires
        !ledger.contains_key(client) || !ledger[client].transactions.contains_key(tx)
            || ledger[client].held_transactions.contains_key(tx),
    ensures
        step(ledger, Transaction { kind: TransactionType::Dispute, client, tx, amount: None }) == (
            ledger,
            Outcome::Ignored,
        ),
{
}

/// A resolve of a transaction that is not under dispute, or of a client
/// without an account, changes nothing.
pub proof fn law_resolve_without_effect(ledger: Ledger, client: ClientID, tx: TransactionID)
    requires
        !ledger.contains_key(client) || !ledger[client].held_transactions.contains_key(tx),
    ensures
        step(ledger, Transaction { kind: TransactionType::Resolve, client, tx, amount: None }) == (
            ledger,
            Outcome::Ignored,
        ),
{
}

/// A chargeback of a transaction that is not under dispute, or of a client
/// without an account, changes nothing: in particular it locks no account.
pub proof fn law_chargeback_without_effect(ledger: Ledger, client: ClientID, tx: TransactionID)
    requires
        !ledger.contains_key(client) || !ledger[client].held_transactions.contains_key(tx),
    ensures
        step(ledger, Transaction { kind: TransactionType::Chargeback, client, tx, amount: None })
            == (ledger, Outcome::Ignored),
{
}

/// A dispute followed by its resolve gives back the balances, and leaves the
/// transaction recorded and not under dispute, in an account that is not
/// locked: its state allows the next dispute.
pub proof fn law_dispute_then_resolve_restores(account: AccountView, tx: TransactionID)
    requires
        account.wf(),
        account.disputed(tx) is Some,
        account.disputed(tx).unwrap().resolved(tx) is Some,
    ensures
        ({
            let after = account.disputed(tx).unwrap().resolved(tx).unwrap();
            &&& after.available.value() == account.available.value()
            &&& after.held.value() == account.held.value()
            &&& after.held_transactions == account.held_transactions
            &&& after.transactions == account.transactions
            &&& after.transactions.contains_key(tx)
            &&& !after.held_transactions.contains_key(tx)
            &&& !after.locked
        }),
{
    let disputed = account.disputed(tx).unwrap();
    law_rules_in_numbers(account, account.available, tx);
    law_rules_in_numbers(disputed, account.available, tx);
    let after = disputed.resolved(tx).unwrap();
}

/// A chargeback is the end: the transaction is no longer under dispute, the
/// account is locked, and no rule applies to it any more, so that no second
/// chargeback is ever carried out, of this transaction or another.
pub proof fn law_chargeback_is_terminal(
    account: AccountView,
    tx: TransactionID,
    later: TransactionID,
    amount: Amount,
)
    requires
        account.charged_back(tx) is Some,
    ensures
        ({
            let after = account.charged_back(tx).unwrap();
            &&& after.locked
            &&& !after.held_transactions.contains_key(tx)
            &&& after.charged_back(later) is None
            &&& after.disputed(later) is None
            &&& after.resolved(later) is None
            &&& after.deposited(amount) is None
            &&& after.withdrawn(amount) is None
        }),
{
}

/// One transaction, whatever it is, leaves a locked account as it is, and
/// is not `Applied` if it is addressed to it.
pub proof fn law_locked_account_is_frozen(
    ledger: Ledger,
    transaction: Transaction,
    client: ClientID,
)
    requires
        ledger.contains_key(client),
        ledger[client].locked,
    ensures
        step(ledger, transaction).0.contains_key(client),
        step(ledger, transaction).0[client] == ledger[client],
        transaction.client == client ==> step(ledger, transaction).1 != Outcome::Applied,
{
}

/// No sequence of transactions changes a locked account.
pub proof fn law_locked_account_stays_frozen(
    ledger: Ledger,
    transactions: Seq<Transaction>,
    client: ClientID,
)
    requires
        ledger.contains_key(client),
        ledger[client].locked,
    ensures
        replay(ledger, transactions).contains_key(client),
        replay(ledger, transactions)[client] == ledger[client],
    decreases transactions.len(),
{
    if transactions.len() > 0 {
        law_locked_account_stays_frozen(ledger, transactions.drop_last(), client);
        law_locked_account_is_frozen(
            replay(ledger, transactions.drop_last()),
            transactions.last(),
            client,
        );
    }
}

/// Once a chargeback has been carried out for a client, no transaction
/// addressed to that client is carried out any more, whatever comes between:
/// so no transaction is charged back twice.
pub proof fn law_no_chargeback_after_a_chargeback(
    ledger: Ledger,
    client: ClientID,
    tx: TransactionID,
    between: Seq<Transaction>,
    later: Transaction,
)
    requires
        step(
            ledger,
            Transaction { kind: TransactionType::Chargeback, client, tx, amount: None },
        ).1 == Outcome::Applied,
        later.client == client,
    ensures
        ({
            let after = step(
                ledger,
                Transaction { kind: TransactionType::Chargeback, client, tx, amount: None },
            ).0;
            step(replay(after, between), later).1 != Outcome::Applied
        }),
{
    let after = step(
        ledger,
        Transaction { kind: TransactionType::Chargeback, client, tx, amount: None },
    ).0;
    law_locked_account_stays_frozen(after, between, client);
    law_locked_account_is_frozen(replay(after, between), later, client);
}

/// After any sequence of transactions, every account meets its invariant,
/// if every account did before.
pub proof fn law_replay_keeps_the_invariant(ledger: Ledger, transactions: Seq<Transaction>)
    requires
        ledger_wf(ledger),
        forall|i: int| 0 <= i < transactions.len() ==> (#[trigger] transactions[i]).wf(),
    ensures
        ledger_wf(replay(ledger, transactions)),
    decreases transactions.len(),
{
    if transactions.len() > 0 {
        law_replay_keeps_the_invariant(ledger, transactions.drop_last());
        law_step_keeps_the_invariant(
            replay(ledger, transactions.drop_last()),
            transactions.last(),
        );
    }
}

} // verus!
