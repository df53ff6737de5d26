use rust_decimal::prelude::{FromPrimitive, ToPrimitive};
use rust_decimal::Decimal;
use toy_engine::amount::Amount;
use toy_engine::engine::Engine;
use toy_engine::transaction::{ClientID, Transaction};

fn amount(value: f64) -> Amount {
    let decimal = Decimal::from_f64(value).unwrap();
    Amount::new(decimal.mantissa(), decimal.scale()).unwrap()
}

fn decimal(amount: Amount) -> Decimal {
    Decimal::from_i128_with_scale(amount.mantissa(), amount.scale())
}

fn available_and_held_for_client(engine: &Engine, client_id: ClientID) -> (f64, f64) {
    let account = engine.accounts.get(&client_id).unwrap();
    let held: Decimal = account
        .held_transactions
        .values()
        .map(|amount| decimal(*amount))
        .sum();
    assert_eq!(held, decimal(account.held));
    (
        decimal(account.available).to_f64().unwrap(),
        held.to_f64().unwrap(),
    )
}

fn is_account_locked_for_client(engine: &Engine, client_id: ClientID) -> bool {
    engine.accounts.get(&client_id).unwrap().locked
}

#[test]
fn no_deposits_creates_no_accounts() {
    let engine = Engine::default();
    assert!(engine.accounts.is_empty());
}

#[test]
fn single_deposit_creates_single_account() {
    let mut engine = Engine::default();

    engine.handle_transaction(Transaction::deposit(1, 1, amount(1.0)));
    assert_eq!(1, engine.accounts.len());
    assert_eq!((1.0, 0.0), available_and_held_for_client(&engine, 1));
}

#[test]
fn two_deposits_to_the_same_account() {
    let mut engine = Engine::default();

    engine.handle_transaction(Transaction::deposit(1, 1, amount(1.0)));
    engine.handle_transaction(Transaction::deposit(1, 2, amount(1.0)));
    assert_eq!(1, engine.accounts.len());
    assert_eq!((2.0, 0.0), available_and_held_for_client(&engine, 1));
}

#[test]
fn two_deposits_to_separate_accounts() {
    let mut engine = Engine::default();

    engine.handle_transaction(Transaction::deposit(1, 1, amount(1.0)));
    engine.handle_transaction(Transaction::deposit(2, 2, amount(1.0)));
    assert_eq!(2, engine.accounts.len());
    for client in [1, 2] {
        assert_eq!((1.0, 0.0), available_and_held_for_client(&engine, client));
    }
}

#[test]
fn withdrawal_to_non_existent_client_does_not_create_account() {
    let mut engine = Engine::default();

    engine.handle_transaction(Transaction::withdrawal(1, 1, amount(1.0)));
    assert!(engine.accounts.is_empty());
}

#[test]
fn deposit_and_withdrawal_reduces_available() {
    let mut engine = Engine::default();

    engine.handle_transaction(Transaction::deposit(1, 1, amount(2.0)));
    assert_eq!(1, engine.accounts.len());
    assert_eq!((2.0, 0.0), available_and_held_for_client(&engine, 1));

    engine.handle_transaction(Transaction::withdrawal(1, 2, amount(1.0)));
    assert_eq!(1, engine.accounts.len());
    assert_eq!((1.0, 0.0), available_and_held_for_client(&engine, 1));
}

#[test]
fn withdrawal_over_available_does_nothing() {
    let mut engine = Engine::default();

    engine.handle_transaction(Transaction::deposit(1, 1, amount(1.0)));
    assert_eq!(1, engine.accounts.len());
    assert_eq!((1.0, 0.0), available_and_held_for_client(&engine, 1));

    engine.handle_transaction(Transaction::withdrawal(1, 2, amount(2.0)));
    assert_eq!(1, engine.accounts.len());
    assert_eq!((1.0, 0.0), available_and_held_for_client(&engine, 1));
}

#[test]
fn deposit_and_dispute_reduces_available_and_increases_held() {
    let mut engine = Engine::default();

    engine.handle_transaction(Transaction::deposit(1, 1, amount(1.0)));
    assert_eq!(1, engine.accounts.len());
    assert_eq!((1.0, 0.0), available_and_held_for_client(&engine, 1));

    engine.handle_transaction(Transaction::dispute(1, 1));
    assert_eq!(1, engine.accounts.len());
    assert_eq!((0.0, 1.0), available_and_held_for_client(&engine, 1));
}

#[test]
fn withdrawal_and_dispute_increases_available_and_decreases_held() {
    let mut engine = Engine::default();

    engine.handle_transaction(Transaction::deposit(1, 1, amount(2.0)));
    assert_eq!(1, engine.accounts.len());
    assert_eq!((2.0, 0.0), available_and_held_for_client(&engine, 1));

    engine.handle_transaction(Transaction::withdrawal(1, 2, amount(1.0)));
    assert_eq!(1, engine.accounts.len());
    assert_eq!((1.0, 0.0), available_and_held_for_client(&engine, 1));

    engine.handle_transaction(Transaction::dispute(1, 2));
    assert_eq!(1, engine.accounts.len());
    assert_eq!((2.0, -1.0), available_and_held_for_client(&engine, 1));
}

#[test]
fn disputing_a_non_existent_transaction_does_nothing() {
    let mut engine = Engine::default();

    engine.handle_transaction(Transaction::deposit(1, 1, amount(1.0)));
    assert_eq!(1, engine.accounts.len());
    assert_eq!((1.0, 0.0), available_and_held_for_client(&engine, 1));

    engine.handle_transaction(Transaction::dispute(1, 2));
    assert_eq!(1, engine.accounts.len());
    assert_eq!((1.0, 0.0), available_and_held_for_client(&engine, 1));
}

#[test]
fn disputing_a_transaction_against_incorrect_client_does_nothing() {
    let mut engine = Engine::default();

    engine.handle_transaction(Transaction::deposit(1, 1, amount(1.0)));
    assert_eq!(1, engine.accounts.len());
    assert_eq!((1.0, 0.0), available_and_held_for_client(&engine, 1));

    engine.handle_transaction(Transaction::dispute(2, 1));
    assert_eq!(1, engine.accounts.len());
    assert_eq!((1.0, 0.0), available_and_held_for_client(&engine, 1));
}

#[test]
fn transaction_can_only_be_disputed_once() {
    let mut engine = Engine::default();

    engine.handle_transaction(Transaction::deposit(1, 1, amount(1.0)));
    assert_eq!(1, engine.accounts.len());
    assert_eq!((1.0, 0.0), available_and_held_for_client(&engine, 1));

    engine.handle_transaction(Transaction::dispute(1, 1));
    assert_eq!(1, engine.accounts.len());
    assert_eq!((0.0, 1.0), available_and_held_for_client(&engine, 1));

    engine.handle_transaction(Transaction::dispute(1, 1));
    assert_eq!(1, engine.accounts.len());
    assert_eq!((0.0, 1.0), available_and_held_for_client(&engine, 1));
}

#[test]
fn deposit_dispute_and_resolve_releases_held_funds() {
    let mut engine = Engine::default();

    engine.handle_transaction(Transaction::deposit(1, 1, amount(1.0)));
    assert_eq!(1, engine.accounts.len());
    assert_eq!((1.0, 0.0), available_and_held_for_client(&engine, 1));

    engine.handle_transaction(Transaction::dispute(1, 1));
    assert_eq!(1, engine.accounts.len());
    assert_eq!((0.0, 1.0), available_and_held_for_client(&engine, 1));

    engine.handle_transaction(Transaction::resolve(1, 1));
    assert_eq!(1, engine.accounts.len());
    assert_eq!((1.0, 0.0), available_and_held_for_client(&engine, 1));
}

#[test]
fn withdrawal_dispute_and_resolve_releases_held_funds() {
    let mut engine = Engine::default();

    engine.handle_transaction(Transaction::deposit(1, 1, amount(1.0)));
    assert_eq!(1, engine.accounts.len());
    assert_eq!((1.0, 0.0), available_and_held_for_client(&engine, 1));

    engine.handle_transaction(Transaction::withdrawal(1, 2, amount(1.0)));
    assert_eq!(1, engine.accounts.len());
    assert_eq!((0.0, 0.0), available_and_held_for_client(&engine, 1));

    engine.handle_transaction(Transaction::dispute(1, 2));
    assert_eq!(1, engine.accounts.len());
    assert_eq!((1.0, -1.0), available_and_held_for_client(&engine, 1));

    engine.handle_transaction(Transaction::resolve(1, 2));
    assert_eq!(1, engine.accounts.len());
    assert_eq!((0.0, 0.0), available_and_held_for_client(&engine, 1));
}

#[test]
fn resolving_a_non_existent_transaction_does_nothing() {
    let mut engine = Engine::default();

    engine.handle_transaction(Transaction::deposit(1, 1, amount(1.0)));
    assert_eq!(1, engine.accounts.len());
    assert_eq!((1.0, 0.0), available_and_held_for_client(&engine, 1));

    engine.handle_transaction(Transaction::dispute(1, 1));
    assert_eq!(1, engine.accounts.len());
    assert_eq!((0.0, 1.0), available_and_held_for_client(&engine, 1));

    engine.handle_transaction(Transaction::resolve(1, 2));
    assert_eq!(1, engine.accounts.len());
    assert_eq!((0.0, 1.0), available_and_held_for_client(&engine, 1));
}

#[test]
fn resolving_a_transaction_against_incorrect_client_does_nothing() {
    let mut engine = Engine::default();

    engine.handle_transaction(Transaction::deposit(1, 1, amount(1.0)));
    assert_eq!(1, engine.accounts.len());
    assert_eq!((1.0, 0.0), available_and_held_for_client(&engine, 1));

    engine.handle_transaction(Transaction::dispute(1, 1));
    assert_eq!(1, engine.accounts.len());
    assert_eq!((0.0, 1.0), available_and_held_for_client(&engine, 1));

    engine.handle_transaction(Transaction::resolve(2, 1));
    assert_eq!(1, engine.accounts.len());
    assert_eq!((0.0, 1.0), available_and_held_for_client(&engine, 1));
}

#[test]
fn dispute_can_only_be_resolved_once() {
    let mut engine = Engine::default();

    engine.handle_transaction(Transaction::deposit(1, 1, amount(1.0)));
    assert_eq!(1, engine.accounts.len());
    assert_eq!((1.0, 0.0), available_and_held_for_client(&engine, 1));

    engine.handle_transaction(Transaction::dispute(1, 1));
    assert_eq!(1, engine.accounts.len());
    assert_eq!((0.0, 1.0), available_and_held_for_client(&engine, 1));

    engine.handle_transaction(Transaction::resolve(1, 1));
    assert_eq!(1, engine.accounts.len());
    assert_eq!((1.0, 0.0), available_and_held_for_client(&engine, 1));

    engine.handle_transaction(Transaction::resolve(1, 1));
    assert_eq!(1, engine.accounts.len());
    assert_eq!((1.0, 0.0), available_and_held_for_client(&engine, 1));
}

#[test]
fn deposit_dispute_and_chargeback_releases_held_funds_and_locks_account() {
    let mut engine = Engine::default();

    engine.handle_transaction(Transaction::deposit(1, 1, amount(1.0)));
    assert_eq!(1, engine.accounts.len());
    assert_eq!((1.0, 0.0), available_and_held_for_client(&engine, 1));

    engine.handle_transaction(Transaction::dispute(1, 1));
    assert_eq!(1, engine.accounts.len());
    assert_eq!((0.0, 1.0), available_and_held_for_client(&engine, 1));

    engine.handle_transaction(Transaction::chargeback(1, 1));
    assert_eq!(1, engine.accounts.len());
    assert_eq!((0.0, 0.0), available_and_held_for_client(&engine, 1));
    assert!(is_account_locked_for_client(&engine, 1));
}
