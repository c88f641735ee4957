//! The watch filter: a pure predicate that decides whether a transaction is
//! of interest, by exact equality of its receiver account identifier with a
//! member of the configured watch list.

use vstd::prelude::*;

use crate::model::Transaction;

verus! {

/// Whether `receiver` stands in the watch list `watch`, by exact equality.
pub open spec fn spec_watched(receiver: Seq<char>, watch: Seq<Seq<char>>) -> bool {
    exists|i: int| 0 <= i < watch.len() && watch[i] == receiver
}

/// True iff the transaction's receiver account identifier is a member of the
/// watch list. Exact identifier equality; no pattern matching, no case
/// folding.
pub fn is_tx_receiver_watched(tx: &Transaction, watching_list: &Vec<String>) -> (r: bool)
    ensures
        r == spec_watched(tx@.receiver_id, watching_list.deep_view()),
{
    let mut i: usize = 0;
    while i < watching_list.len()
        invariant
            i <= watching_list.len(),
            forall|j: int| 0 <= j < i ==> watching_list.deep_view()[j] != tx@.receiver_id,
        decreases watching_list.len() - i,
    {
        if watching_list[i] == tx.receiver_id {
            proof {
                assert(watching_list.deep_view()[i as int] == tx@.receiver_id);
            }
            return true;
        }
        i = i + 1;
    }
    false
}

} // verus!
