//! A whole run: from the transactions to the snapshot.

use crate::engine::{ledger_wf, replay, Engine, Ledger};
use crate::output::{is_snapshot, AccountOutput};
use crate::transaction::Transaction;
use vstd::prelude::*;

verus! {

/// Applies the transactions in their order to an empty ledger and gives the
/// snapshot of every account that they have made.
pub fn run(transactions: &Vec<Transaction>) -> (r: Vec<AccountOutput>)
    requires
        forall|i: int| 0 <= i < transactions.len() ==> (#[trigger] transactions[i]).wf(),
    ensures
        ledger_wf(replay(Ledger::empty(), transactions@)),
        is_snapshot(r@, replay(Ledger::empty(), transactions@)),
{
    let mut engine = Engine::default();
    let mut i: usize = 0;
    while i < transactions.len()
        invariant
            i <= transactions.len(),
            engine.wf(),
            engine@ == replay(Ledger::empty(), transactions@.take(i as int)),
            forall|k: int| 0 <= k < transactions.len() ==> (#[trigger] transactions[k]).wf(),
        decreases transactions.len() - i,
    {
        proof {
            let next = transactions@.take(i + 1);
            assert(next.drop_last() =~= transactions@.take(i as int));
        }
        engine.handle_transaction(transactions[i]);
        i = i + 1;
    }
    assert(transactions@.take(i as int) =~= transactions@);
    engine.output()
}

} // verus!
