//! The correlation laws, stated over the same spec functions the processing
//! contracts use and proved once and for all.

use vstd::prelude::*;

use crate::engine::RecordView;
use crate::engine::spec_register_tx;
use crate::engine::spec_resolve_map;
use crate::engine::spec_resolve_records;
use crate::filter::spec_watched;
use crate::model::OutcomeView;
use crate::model::TransactionView;

verus! {

broadcast use vstd::set::group_set_axioms, vstd::map::group_map_axioms;

/// For a watched transaction with declared receipt ids, and a later outcome
/// carrying its first declared receipt id: registering the transaction and
/// then resolving the outcome yields exactly one record, and the record
/// carries the transaction's hash. Resolving the outcome first — before
/// anything registered its receipt id — yields no record at all.
pub proof fn lemma_register_then_resolve(
    m: Map<Seq<char>, Seq<char>>,
    tx: TransactionView,
    o: OutcomeView,
    watch: Seq<Seq<char>>,
)
    requires
        spec_watched(tx.receiver_id, watch),
        tx.receipt_ids.len() > 0,
        o.receipt_id == tx.receipt_ids[0],
    ensures
        spec_register_tx(m, tx, watch) is Some,
        ({
            let m1 = spec_register_tx(m, tx, watch)->Some_0;
            let recs = spec_resolve_records(m1, seq![o]);
            recs.len() == 1 && recs[0].tx_hash == tx.hash
        }),
        !m.dom().contains(o.receipt_id) ==> spec_resolve_records(m, seq![o]) == Seq::<
            RecordView,
        >::empty(),
{
    let empty_o = Seq::<OutcomeView>::empty();
    let m1 = spec_register_tx(m, tx, watch)->Some_0;
    assert(seq![o].drop_last() =~= empty_o);
    assert(seq![o].last() == o);
    assert(spec_resolve_map(m1, empty_o) == m1);
    assert(spec_resolve_records(m1, empty_o) =~= Seq::<RecordView>::empty());
    assert(m1.dom().contains(o.receipt_id));
    assert(m1[o.receipt_id] == tx.hash);
    assert(spec_resolve_records(m1, seq![o]).len() == 1);
    if !m.dom().contains(o.receipt_id) {
        assert(spec_resolve_map(m, empty_o) == m);
        assert(spec_resolve_records(m, empty_o) =~= Seq::<RecordView>::empty());
        assert(spec_resolve_records(m, seq![o]) =~= Seq::<RecordView>::empty());
    }
}

/// An outcome whose receipt id was never registered yields no record and
/// leaves the pending map unchanged.
pub proof fn lemma_unregistered_outcome_ignored(m: Map<Seq<char>, Seq<char>>, o: OutcomeView)
    requires
        !m.dom().contains(o.receipt_id),
    ensures
        spec_resolve_map(m, seq![o]) == m,
        spec_resolve_records(m, seq![o]) == Seq::<RecordView>::empty(),
{
    let empty_o = Seq::<OutcomeView>::empty();
    assert(seq![o].drop_last() =~= empty_o);
    assert(seq![o].last() == o);
    assert(spec_resolve_map(m, empty_o) == m);
    assert(spec_resolve_records(m, empty_o) =~= Seq::<RecordView>::empty());
    assert(spec_resolve_records(m, seq![o]) =~= Seq::<RecordView>::empty());
}

/// A match is consumed at most once: resolving the same outcome twice yields
/// exactly one record, because the second pass finds nothing pending.
pub proof fn lemma_resolution_idempotent(m: Map<Seq<char>, Seq<char>>, o: OutcomeView)
    requires
        m.dom().contains(o.receipt_id),
    ensures
        spec_resolve_records(m, seq![o, o]).len() == 1,
        spec_resolve_map(m, seq![o, o]) == m.remove(o.receipt_id),
{
    let empty_o = Seq::<OutcomeView>::empty();
    let one = seq![o];
    let two = seq![o, o];
    assert(two.drop_last() =~= one);
    assert(two.last() == o);
    assert(one.drop_last() =~= empty_o);
    assert(one.last() == o);
    assert(spec_resolve_map(m, empty_o) == m);
    assert(spec_resolve_records(m, empty_o) =~= Seq::<RecordView>::empty());
    assert(spec_resolve_map(m, one) == m.remove(o.receipt_id));
    assert(spec_resolve_records(m, one).len() == 1);
    assert(!m.remove(o.receipt_id).dom().contains(o.receipt_id));
    assert(spec_resolve_records(m, two) =~= spec_resolve_records(m, one));
}

} // verus!
