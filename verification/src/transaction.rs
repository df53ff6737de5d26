//! The records that the engine is fed.

use crate::amount::Amount;
use vstd::prelude::*;

verus! {

/// Identifies a client, and with it an account.
pub type ClientID = u16;

/// Identifies a deposit or a withdrawal, and the disputes about it.
pub type TransactionID = u32;

/// What a record asks for.
#[derive(Clone, Copy, Debug, PartialEq, Eq, Structural)]
pub enum TransactionType {
    Deposit,
    Withdrawal,
    Dispute,
    Resolve,
    Chargeback,
}

/// One record of the input. A deposit or a withdrawal carries an amount; a
/// dispute, a resolve and a chargeback carry none. A record of any other
/// shape is malformed.
#[derive(Clone, Copy, Debug)]
pub struct Transaction {
    pub kind: TransactionType,
    pub client: ClientID,
    pub tx: TransactionID,
    pub amount: Option<Amount>,
}

impl Transaction {
    /// The amount, if there is one, is within the limits of [`Amount`].
    pub open spec fn wf(self) -> bool {
        self.amount is Some ==> self.amount.unwrap().wf()
    }

    /// Whether the record has the shape that its kind asks for.
    pub open spec fn well_shaped(self) -> bool {
        match self.kind {
            TransactionType::Deposit | TransactionType::Withdrawal => self.amount is Some,
            TransactionType::Dispute | TransactionType::Resolve | TransactionType::Chargeback => {
                self.amount is None
            },
        }
    }

    /// A deposit of `amount` to `client`.
    pub fn deposit(client: ClientID, tx: TransactionID, amount: Amount) -> (r: Transaction)
        ensures
            r == (Transaction { kind: TransactionType::Deposit, client, tx, amount: Some(amount) }),
            r.well_shaped(),
    {
        Transaction { kind: TransactionType::Deposit, client, tx, amount: Some(amount) }
    }

    /// A withdrawal of `amount` from `client`.
    pub fn withdrawal(client: ClientID, tx: TransactionID, amount: Amount) -> (r: Transaction)
        ensures
            r == (Transaction {
                kind: TransactionType::Withdrawal,
                client,
                tx,
                amount: Some(amount),
            }),
            r.well_shaped(),
    {
        Transaction { kind: TransactionType::Withdrawal, client, tx, amount: Some(amount) }
    }

    /// A dispute of the transaction `tx` of `client`.
    pub fn dispute(client: ClientID, tx: TransactionID) -> (r: Transaction)
        ensures
            r == (Transaction { kind: TransactionType::Dispute, client, tx, amount: None }),
            r.well_shaped(),
            r.wf(),
    {
        Transaction { kind: TransactionType::Dispute, client, tx, amount: None }
    }

    /// The end of a dispute of `tx` in the client's favour: the hold is released.
    pub fn resolve(client: ClientID, tx: TransactionID) -> (r: Transaction)
        ensures
            r == (Transaction { kind: TransactionType::Resolve, client, tx, amount: None }),
            r.well_shaped(),
            r.wf(),
    {
        Transaction { kind: TransactionType::Resolve, client, tx, amount: None }
    }

    /// The end of a dispute of `tx` by reversal: the held amount leaves the
    /// account, which is locked.
    pub fn chargeback(client: ClientID, tx: TransactionID) -> (r: Transaction)
        ensures
            r == (Transaction { kind: TransactionType::Chargeback, client, tx, amount: None }),
            r.well_shaped(),
            r.wf(),
    {
        Transaction { kind: TransactionType::Chargeback, client, tx, amount: None }
    }
}

} // verus!
