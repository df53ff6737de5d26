//! The snapshot of an account.

use crate::account::{held_sum, Account, AccountView};
use crate::amount::{lemma_exact_sum_value, Amount};
use crate::transaction::ClientID;
use vstd::prelude::*;

verus! {

/// The balances of one client at one moment.
#[derive(Clone, Copy, Debug)]
pub struct AccountOutput {
    pub client: ClientID,
    pub available: Amount,
    pub held: Amount,
    pub total: Amount,
    pub locked: bool,
}

/// Whether `rows` is the snapshot of `ledger`: one row for each account,
/// in ascending order of the clients.
pub open spec fn is_snapshot(rows: Seq<AccountOutput>, ledger: Map<ClientID, AccountView>) -> bool {
    &&& forall|i: int|
        0 <= i < rows.len() ==> ledger.contains_key(#[trigger] rows[i].client) && rows[i]
            == AccountOutput::of(rows[i].client, ledger[rows[i].client])
    &&& forall|client: ClientID|
        ledger.contains_key(client) ==> exists|i: int|
            0 <= i < rows.len() && #[trigger] rows[i].client == client
    &&& forall|i: int, j: int|
        0 <= i < j < rows.len() ==> (#[trigger] rows[i].client) < (#[trigger] rows[j].client)
}

impl AccountOutput {
    /// The snapshot of `account`, which belongs to `client`.
    pub open spec fn of(client: ClientID, account: AccountView) -> AccountOutput {
        AccountOutput {
            client,
            available: account.available,
            held: account.held,
            total: account.total(),
            locked: account.locked,
        }
    }

    /// The snapshot of an account: what is available, the sum of what is
    /// held, and the two together.
    pub fn from(entry: (&ClientID, &Account)) -> (r: AccountOutput)
        requires
            entry.1.wf(),
        ensures
            r == AccountOutput::of(*entry.0, entry.1@),
            r.held.value() == held_sum(entry.1@.held_transactions),
            r.total.value() == r.available.value() + r.held.value(),
            r.available.wf() && r.held.wf() && r.total.wf(),
    {
        let (client, account) = entry;
        proof {
            lemma_exact_sum_value(account.available, account.held);
        }
        let total = match account.available.checked_add(account.held) {
            Some(total) => total,
            // never taken: by the invariant the total can be held
            None => account.available,
        };
        AccountOutput {
            client: *client,
            available: account.available,
            held: account.held,
            total,
            locked: account.locked,
        }
    }
}

} // verus!
