//! The correlation engine: per block message, shard by shard, a registration
//! pass over the shard's transactions followed by a resolution pass over its
//! receipt execution outcomes, in that exact order. Each resolved match
//! yields one record.

use vstd::prelude::*;

use crate::decode::decode_function_call_args;
use crate::decode::spec_args_decode_ok;
use crate::filter::is_tx_receiver_watched;
use crate::filter::spec_watched;
use crate::model::Action;
use crate::model::ActionModel;
use crate::model::ExecutionStatus;
use crate::model::OutcomeView;
use crate::model::ReceiptEnum;
use crate::model::ReceiptEnumView;
use crate::model::ReceiptExecutionOutcome;
use crate::model::Shard;
use crate::model::ShardView;
use crate::model::StatusView;
use crate::model::StreamerMessage;
use crate::model::Transaction;
use crate::model::TransactionView;
use crate::state::PendingState;

verus! {

/// The fatal invariant violation the engine can meet: a watched transaction
/// whose outcome declares no receipt ids. The caller is expected to abort.
#[derive(Debug, PartialEq, Eq, Structural)]
pub enum EngineError {
    NoReceiptIds,
}

/// One resolved correlation: the log record proper — transaction hash,
/// receiver, execution status — together with the best-effort diagnostics,
/// the signer of an action receipt and the decoded argument values of its
/// function calls.
pub struct ResolvedMatch {
    pub tx_hash: String,
    pub receiver_id: String,
    pub status: ExecutionStatus,
    pub signer_id: Option<String>,
    pub decoded_args: Vec<serde_json::Value>,
}

/// What a record pins down: everything but the decoded argument values
/// themselves, which are opaque; of those only the count is determined.
pub ghost struct RecordView {
    pub tx_hash: Seq<char>,
    pub receiver_id: Seq<char>,
    pub status: StatusView,
    pub signer_id: Option<Seq<char>>,
    pub decoded_count: nat,
}

impl View for ResolvedMatch {
    type V = RecordView;

    open spec fn view(&self) -> RecordView {
        RecordView {
            tx_hash: self.tx_hash@,
            receiver_id: self.receiver_id@,
            status: self.status@,
            signer_id: match self.signer_id {
                Some(s) => Some(s@),
                None => None,
            },
            decoded_count: self.decoded_args@.len(),
        }
    }
}

impl DeepView for ResolvedMatch {
    type V = RecordView;

    open spec fn deep_view(&self) -> RecordView {
        self.view()
    }
}

/// Whether an action is a function call whose argument text survives the
/// whole decode chain.
pub open spec fn action_decodes(a: ActionModel) -> bool {
    match a {
        ActionModel::FunctionCall { args } => spec_args_decode_ok(args),
        ActionModel::Other => false,
    }
}

/// How many actions of the list decode.
pub open spec fn decodable_count(actions: Seq<ActionModel>) -> nat
    decreases actions.len(),
{
    if actions.len() == 0 {
        0
    } else {
        decodable_count(actions.drop_last()) + if action_decodes(actions.last()) {
            1nat
        } else {
            0nat
        }
    }
}

/// The record one outcome yields when it resolves a match whose originating
/// transaction hash is `tx_hash`.
pub open spec fn record_of(o: OutcomeView, tx_hash: Seq<char>) -> RecordView {
    RecordView {
        tx_hash: tx_hash,
        receiver_id: o.receiver_id,
        status: o.status,
        signer_id: match o.receipt {
            ReceiptEnumView::Action { signer_id, .. } => Some(signer_id),
            ReceiptEnumView::Other => None,
        },
        decoded_count: match o.receipt {
            ReceiptEnumView::Action { actions, .. } => decodable_count(actions),
            ReceiptEnumView::Other => 0,
        },
    }
}

/// A transaction on which processing must abort: watched, but with no
/// declared receipt ids.
pub open spec fn tx_fatal(tx: TransactionView, watch: Seq<Seq<char>>) -> bool {
    spec_watched(tx.receiver_id, watch) && tx.receipt_ids.len() == 0
}

/// What registering one transaction does to the pending map: a watched
/// transaction adds its first declared receipt id, keyed to its hash; an
/// unwatched one changes nothing; a fatal one aborts.
pub open spec fn spec_register_tx(
    m: Map<Seq<char>, Seq<char>>,
    tx: TransactionView,
    watch: Seq<Seq<char>>,
) -> Option<Map<Seq<char>, Seq<char>>> {
    if spec_watched(tx.receiver_id, watch) {
        if tx.receipt_ids.len() == 0 {
            None
        } else {
            Some(m.insert(tx.receipt_ids[0], tx.hash))
        }
    } else {
        Some(m)
    }
}

/// The registration pass over a transaction list, left to right.
pub open spec fn spec_register_txs(
    m: Map<Seq<char>, Seq<char>>,
    txs: Seq<TransactionView>,
    watch: Seq<Seq<char>>,
) -> Option<Map<Seq<char>, Seq<char>>>
    decreases txs.len(),
{
    if txs.len() == 0 {
        Some(m)
    } else {
        match spec_register_txs(m, txs.drop_last(), watch) {
            Some(m1) => spec_register_tx(m1, txs.last(), watch),
            None => None,
        }
    }
}

/// The pending map after the resolution pass over an outcome list, left to
/// right: each outcome whose receipt id is awaited consumes its entry.
pub open spec fn spec_resolve_map(
    m: Map<Seq<char>, Seq<char>>,
    outcomes: Seq<OutcomeView>,
) -> Map<Seq<char>, Seq<char>>
    decreases outcomes.len(),
{
    if outcomes.len() == 0 {
        m
    } else {
        let m1 = spec_resolve_map(m, outcomes.drop_last());
        let o = outcomes.last();
        if m1.dom().contains(o.receipt_id) {
            m1.remove(o.receipt_id)
        } else {
            m1
        }
    }
}

/// The records the resolution pass yields, in outcome order: one per outcome
/// whose receipt id was awaited when it arrived, carrying the originating
/// transaction hash the map held for it.
pub open spec fn spec_resolve_records(
    m: Map<Seq<char>, Seq<char>>,
    outcomes: Seq<OutcomeView>,
) -> Seq<RecordView>
    decreases outcomes.len(),
{
    if outcomes.len() == 0 {
        Seq::empty()
    } else {
        let m1 = spec_resolve_map(m, outcomes.drop_last());
        let recs = spec_resolve_records(m, outcomes.drop_last());
        let o = outcomes.last();
        if m1.dom().contains(o.receipt_id) {
            recs.push(record_of(o, m1[o.receipt_id]))
        } else {
            recs
        }
    }
}

/// The transactions a shard contributes: those of its chunk, or none where
/// the shard produced no chunk this block.
pub open spec fn shard_txs(shard: ShardView) -> Seq<TransactionView> {
    match shard.chunk {
        Some(c) => c.transactions,
        None => Seq::empty(),
    }
}

/// The pending map after one shard: registration pass, then resolution pass.
/// A shard without a chunk is skipped entirely: its listed outcomes are not
/// examined either, and the map is unchanged.
pub open spec fn spec_shard_map(
    m: Map<Seq<char>, Seq<char>>,
    shard: ShardView,
    watch: Seq<Seq<char>>,
) -> Option<Map<Seq<char>, Seq<char>>> {
    if shard.chunk is None {
        Some(m)
    } else {
        match spec_register_txs(m, shard_txs(shard), watch) {
            Some(m1) => Some(spec_resolve_map(m1, shard.receipt_execution_outcomes)),
            None => None,
        }
    }
}

/// The records one shard yields; none at all from a shard without a chunk.
pub open spec fn spec_shard_records(
    m: Map<Seq<char>, Seq<char>>,
    shard: ShardView,
    watch: Seq<Seq<char>>,
) -> Seq<RecordView> {
    if shard.chunk is None {
        Seq::empty()
    } else {
        match spec_register_txs(m, shard_txs(shard), watch) {
            Some(m1) => spec_resolve_records(m1, shard.receipt_execution_outcomes),
            None => Seq::empty(),
        }
    }
}

/// The state a shard whose registration pass aborted leaves behind: the
/// registrations before the first fatal transaction are applied, nothing
/// after it is.
pub open spec fn shard_err_state(
    m0: Map<Seq<char>, Seq<char>>,
    shard: ShardView,
    watch: Seq<Seq<char>>,
    m1: Map<Seq<char>, Seq<char>>,
) -> bool {
    exists|j: int|
        #![trigger shard_txs(shard)[j]]
        {
            let txs = shard_txs(shard);
            &&& 0 <= j < txs.len()
            &&& tx_fatal(txs[j], watch)
            &&& forall|k: int| 0 <= k < j ==> !tx_fatal(txs[k], watch)
            &&& Some(m1) == spec_register_txs(m0, txs.take(j), watch)
        }
}

/// The pending map after a whole block message, shard by shard.
pub open spec fn spec_message_map(
    m: Map<Seq<char>, Seq<char>>,
    shards: Seq<ShardView>,
    watch: Seq<Seq<char>>,
) -> Option<Map<Seq<char>, Seq<char>>>
    decreases shards.len(),
{
    if shards.len() == 0 {
        Some(m)
    } else {
        match spec_message_map(m, shards.drop_last(), watch) {
            Some(m1) => spec_shard_map(m1, shards.last(), watch),
            None => None,
        }
    }
}

/// The records a whole block message yields, shard records concatenated in
/// shard order.
pub open spec fn spec_message_records(
    m: Map<Seq<char>, Seq<char>>,
    shards: Seq<ShardView>,
    watch: Seq<Seq<char>>,
) -> Seq<RecordView>
    decreases shards.len(),
{
    if shards.len() == 0 {
        Seq::empty()
    } else {
        let recs = spec_message_records(m, shards.drop_last(), watch);
        match spec_message_map(m, shards.drop_last(), watch) {
            Some(m1) => recs + spec_shard_records(m1, shards.last(), watch),
            None => recs,
        }
    }
}

/// Registration of one transaction: a watched transaction registers its
/// first declared receipt id, keyed to its hash; returns whether it was
/// watched, or the fatal error where a watched transaction declares no
/// receipt id, in which case the state is untouched.
pub fn process_transaction(
    state: &mut PendingState,
    tx: &Transaction,
    watching_list: &Vec<String>,
) -> (r: Result<bool, EngineError>)
    requires
        old(state).wf(),
    ensures
        final(state).wf(),
        (r is Err) == tx_fatal(tx@, watching_list.deep_view()),
        match r {
            Ok(registered) => {
                &&& registered == spec_watched(tx@.receiver_id, watching_list.deep_view())
                &&& Some(final(state).map_view()) == spec_register_tx(
                    old(state).map_view(),
                    tx@,
                    watching_list.deep_view(),
                )
            },
            Err(e) => e == EngineError::NoReceiptIds && *final(state) == *old(state),
        },
{
    if is_tx_receiver_watched(tx, watching_list) {
        if tx.receipt_ids.len() == 0 {
            Err(EngineError::NoReceiptIds)
        } else {
            let receipt_id = tx.receipt_ids[0].clone();
            let tx_hash = tx.hash.clone();
            state.register(receipt_id, tx_hash);
            Ok(true)
        }
    } else {
        Ok(false)
    }
}

/// The registration pass aborts exactly when some transaction of the list is
/// fatal: watched with no declared receipt ids.
pub proof fn lemma_register_fatal(
    m: Map<Seq<char>, Seq<char>>,
    txs: Seq<TransactionView>,
    watch: Seq<Seq<char>>,
)
    ensures
        (spec_register_txs(m, txs, watch) is None) <==> (exists|j: int|
            0 <= j < txs.len() && tx_fatal(#[trigger] txs[j], watch)),
    decreases txs.len(),
{
    if txs.len() > 0 {
        let prefix = txs.drop_last();
        lemma_register_fatal(m, prefix, watch);
        if spec_register_txs(m, txs, watch) is None {
            if spec_register_txs(m, prefix, watch) is None {
                let j = choose|j: int| 0 <= j < prefix.len() && tx_fatal(#[trigger] prefix[j], watch);
                assert(tx_fatal(txs[j], watch));
            } else {
                assert(tx_fatal(txs[txs.len() - 1], watch));
            }
        }
        if exists|j: int| 0 <= j < txs.len() && tx_fatal(#[trigger] txs[j], watch) {
            let j = choose|j: int| 0 <= j < txs.len() && tx_fatal(#[trigger] txs[j], watch);
            if j < txs.len() - 1 {
                assert(tx_fatal(prefix[j], watch));
                assert(spec_register_txs(m, prefix, watch) is None);
            }
        }
    }
}

/// Once a prefix of the shard fold aborts, the whole fold aborts.
proof fn lemma_message_none_mono(
    m: Map<Seq<char>, Seq<char>>,
    shards: Seq<ShardView>,
    watch: Seq<Seq<char>>,
    i: int,
)
    requires
        0 <= i <= shards.len(),
        spec_message_map(m, shards.take(i), watch) is None,
    ensures
        spec_message_map(m, shards, watch) is None,
    decreases shards.len(),
{
    if i < shards.len() {
        let prefix = shards.drop_last();
        assert(prefix.take(i) =~= shards.take(i));
        lemma_message_none_mono(m, prefix, watch, i);
    } else {
        assert(shards.take(i) =~= shards);
    }
}

/// Resolution of one outcome: an awaited receipt id is consumed and yields
/// one record; any other outcome is unrelated, yields nothing and changes
/// nothing.
pub fn process_outcome(state: &mut PendingState, outcome: ReceiptExecutionOutcome) -> (r: Option<
    ResolvedMatch,
>)
    requires
        old(state).wf(),
    ensures
        final(state).wf(),
        (r is Some) == old(state).map_view().dom().contains(outcome@.receipt_id),
        match r {
            Some(rec) => rec@ == record_of(
                outcome@,
                old(state).map_view()[outcome@.receipt_id],
            ) && final(state).map_view() == old(state).map_view().remove(outcome@.receipt_id),
            None => *final(state) == *old(state),
        },
{
    let ReceiptExecutionOutcome { receipt_id, receiver_id, status, receipt } = outcome;
    match state.resolve(&receipt_id) {
        Some(tx_hash) => {
            let mut signer: Option<String> = None;
            let mut decoded: Vec<serde_json::Value> = Vec::new();
            match receipt {
                ReceiptEnum::Action { signer_id, actions } => {
                    let ghost actions_view = actions.deep_view();
                    signer = Some(signer_id);
                    let mut i: usize = 0;
                    while i < actions.len()
                        invariant
                            i <= actions.len(),
                            actions_view == actions.deep_view(),
                            decoded@.len() == decodable_count(actions_view.take(i as int)),
                        decreases actions.len() - i,
                    {
                        match &actions[i] {
                            Action::FunctionCall { args } => {
                                match decode_function_call_args(args.as_str()) {
                                    Some(value) => decoded.push(value),
                                    None => (),
                                }
                            },
                            Action::Other => (),
                        }
                        i = i + 1;
                        proof {
                            assert(actions_view.take(i as int).drop_last() =~= actions_view.take(
                                i as int - 1,
                            ));
                            assert(actions_view.take(i as int).last() == actions_view[i as int
                                - 1]);
                        }
                    }
                    proof {
                        assert(actions_view.take(actions_view.len() as int) =~= actions_view);
                    }
                },
                ReceiptEnum::Other => (),
            }
            Some(
                ResolvedMatch {
                    tx_hash,
                    receiver_id,
                    status,
                    signer_id: signer,
                    decoded_args: decoded,
                },
            )
        },
        None => None,
    }
}

/// One shard, in the exact pass order the stream requires: first the
/// registration pass over the chunk's transactions, then the resolution pass
/// over the shard's receipt execution outcomes. A shard without a chunk is
/// skipped entirely and silently: not even its listed outcomes are examined.
/// Returns the records of the matches the shard resolved, or the fatal
/// error, leaving every registration before the first fatal transaction
/// applied and nothing after it.
#[verifier::loop_isolation(false)]
pub fn process_shard(state: &mut PendingState, shard: Shard, watching_list: &Vec<String>) -> (r:
    Result<Vec<ResolvedMatch>, EngineError>)
    requires
        old(state).wf(),
    ensures
        final(state).wf(),
        (r is Err) == (spec_register_txs(
            old(state).map_view(),
            shard_txs(shard@),
            watching_list.deep_view(),
        ) is None),
        match r {
            Ok(records) => {
                &&& Some(final(state).map_view()) == spec_shard_map(
                    old(state).map_view(),
                    shard@,
                    watching_list.deep_view(),
                )
                &&& records.deep_view() == spec_shard_records(
                    old(state).map_view(),
                    shard@,
                    watching_list.deep_view(),
                )
            },
            Err(e) => e == EngineError::NoReceiptIds && shard_err_state(
                old(state).map_view(),
                shard@,
                watching_list.deep_view(),
                final(state).map_view(),
            ),
        },
{
    let ghost shard_view = shard@;
    let ghost m0 = old(state).map_view();
    let ghost w = watching_list.deep_view();
    let ghost txs = shard_txs(shard_view);
    let Shard { chunk, receipt_execution_outcomes } = shard;
    let c = match chunk {
        Some(c) => c,
        None => {
            // no chunk this block: the shard is skipped entirely, its listed
            // outcomes included
            let records: Vec<ResolvedMatch> = Vec::new();
            proof {
                assert(txs =~= Seq::<TransactionView>::empty());
                assert(records.deep_view() =~= Seq::<RecordView>::empty());
            }
            return Ok(records);
        },
    };
    proof {
        assert(txs == c.transactions.deep_view());
    }
    let mut i: usize = 0;
    while i < c.transactions.len()
        invariant
            state.wf(),
            i <= c.transactions.len(),
            txs == c.transactions.deep_view(),
            w == watching_list.deep_view(),
            Some(state.map_view()) == spec_register_txs(m0, txs.take(i as int), w),
            forall|k: int| 0 <= k < i ==> !tx_fatal(#[trigger] txs[k], w),
        decreases c.transactions.len() - i,
    {
        match process_transaction(state, &c.transactions[i], watching_list) {
            Ok(_) => (),
            Err(e) => {
                proof {
                    let j = i as int;
                    assert(tx_fatal(shard_txs(shard_view)[j], w));
                    assert forall|k: int| 0 <= k < j implies !tx_fatal(
                        #[trigger] shard_txs(shard_view)[k],
                        w,
                    ) by {
                        assert(!tx_fatal(txs[k], w));
                    }
                    assert(shard_err_state(m0, shard_view, w, state.map_view())) by {
                        assert(0 <= j < shard_txs(shard_view).len() && tx_fatal(
                            shard_txs(shard_view)[j],
                            w,
                        ) && (forall|k: int|
                            0 <= k < j ==> !tx_fatal(#[trigger] shard_txs(shard_view)[k], w))
                            && Some(state.map_view()) == spec_register_txs(
                            m0,
                            shard_txs(shard_view).take(j),
                            w,
                        ));
                    }
                    lemma_register_fatal(m0, txs, w);
                }
                return Err(e);
            },
        }
        i = i + 1;
        proof {
            assert(txs.take(i as int).drop_last() =~= txs.take(i as int - 1));
            assert(txs.take(i as int).last() == txs[i as int - 1]);
        }
    }
    proof {
        assert(txs.take(c.transactions.deep_view().len() as int) =~= txs);
        lemma_register_fatal(m0, txs, w);
    }
    let ghost m1 = state.map_view();
    let ghost outs = shard_view.receipt_execution_outcomes;
    proof {
        assert(outs == receipt_execution_outcomes.deep_view());
    }
    let mut outcomes = receipt_execution_outcomes;
    let mut records: Vec<ResolvedMatch> = Vec::new();
    while outcomes.len() > 0
        invariant
            state.wf(),
            outcomes.deep_view().len() <= outs.len(),
            outcomes.deep_view() == outs.skip(outs.len() - outcomes.deep_view().len()),
            state.map_view() == spec_resolve_map(
                m1,
                outs.take(outs.len() - outcomes.deep_view().len()),
            ),
            records.deep_view() == spec_resolve_records(
                m1,
                outs.take(outs.len() - outcomes.deep_view().len()),
            ),
        decreases outcomes.len(),
    {
        let ghost d = outs.len() - outcomes.deep_view().len();
        let ghost pre = outcomes@;
        let ghost pre_deep = outcomes.deep_view();
        let outcome = outcomes.remove(0);
        proof {
            assert(outcome.deep_view() == outs.skip(d)[0]);
            assert(outs.skip(d)[0] == outs[d]);
            assert forall|j: int| 0 <= j < outcomes.deep_view().len() implies outcomes.deep_view()[j]
                == outs.skip(d + 1)[j] by {
                assert(outcomes@[j] == pre[j + 1]);
                assert(outcomes@[j].deep_view() == pre_deep[j + 1]);
                assert(pre_deep[j + 1] == outs.skip(d)[j + 1]);
                assert(outs.skip(d)[j + 1] == outs[d + j + 1]);
            }
            assert(outcomes.deep_view() =~= outs.skip(d + 1));
            assert(outs.take(d + 1).drop_last() =~= outs.take(d));
            assert(outs.take(d + 1).last() == outs[d]);
        }
        match process_outcome(state, outcome) {
            Some(rec) => {
                records.push(rec);
                proof {
                    assert(records.deep_view() =~= spec_resolve_records(m1, outs.take(d + 1)));
                }
            },
            None => (),
        }
    }
    proof {
        assert(outs.take(outs.len() as int) =~= outs);
    }
    Ok(records)
}

/// One block message: every shard in order, each with its registration pass
/// before its resolution pass. Returns the records of every match the
/// message resolved, concatenated in shard order, or the fatal error, with
/// every shard before the fatal one fully applied and the fatal shard's
/// registrations applied up to the fatal transaction.
#[verifier::loop_isolation(false)]
pub fn process_message(
    state: &mut PendingState,
    message: StreamerMessage,
    watching_list: &Vec<String>,
) -> (r: Result<Vec<ResolvedMatch>, EngineError>)
    requires
        old(state).wf(),
    ensures
        final(state).wf(),
        (r is Err) == (spec_message_map(
            old(state).map_view(),
            message@.shards,
            watching_list.deep_view(),
        ) is None),
        match r {
            Ok(records) => {
                &&& Some(final(state).map_view()) == spec_message_map(
                    old(state).map_view(),
                    message@.shards,
                    watching_list.deep_view(),
                )
                &&& records.deep_view() == spec_message_records(
                    old(state).map_view(),
                    message@.shards,
                    watching_list.deep_view(),
                )
            },
            Err(e) => e == EngineError::NoReceiptIds && (exists|i: int|
                #![trigger message@.shards[i]]
                {
                    let m0 = old(state).map_view();
                    let w = watching_list.deep_view();
                    let shards = message@.shards;
                    &&& 0 <= i < shards.len()
                    &&& spec_message_map(m0, shards.take(i), w) is Some
                    &&& shard_err_state(
                        spec_message_map(m0, shards.take(i), w)->Some_0,
                        shards[i],
                        w,
                        final(state).map_view(),
                    )
                }),
        },
{
    let ghost msg_view = message@;
    let ghost m0 = old(state).map_view();
    let ghost w = watching_list.deep_view();
    let ghost shards_view = msg_view.shards;
    let StreamerMessage { height: _height, shards } = message;
    proof {
        assert(shards_view == shards.deep_view());
    }
    let mut remaining = shards;
    let mut records: Vec<ResolvedMatch> = Vec::new();
    while remaining.len() > 0
        invariant
            state.wf(),
            remaining.deep_view().len() <= shards_view.len(),
            remaining.deep_view() == shards_view.skip(
                shards_view.len() - remaining.deep_view().len(),
            ),
            Some(state.map_view()) == spec_message_map(
                m0,
                shards_view.take(shards_view.len() - remaining.deep_view().len()),
                w,
            ),
            records.deep_view() == spec_message_records(
                m0,
                shards_view.take(shards_view.len() - remaining.deep_view().len()),
                w,
            ),
        decreases remaining.len(),
    {
        let ghost d = shards_view.len() - remaining.deep_view().len();
        let ghost pre = remaining@;
        let ghost pre_deep = remaining.deep_view();
        let shard = remaining.remove(0);
        proof {
            assert(shard.deep_view() == shards_view.skip(d)[0]);
            assert(shard@ == shards_view[d]);
            assert forall|j: int|
                0 <= j < remaining.deep_view().len() implies remaining.deep_view()[j]
                == shards_view.skip(d + 1)[j] by {
                assert(remaining@[j] == pre[j + 1]);
                assert(remaining@[j].deep_view() == pre_deep[j + 1]);
                assert(pre_deep[j + 1] == shards_view.skip(d)[j + 1]);
                assert(shards_view.skip(d)[j + 1] == shards_view[d + j + 1]);
            }
            assert(remaining.deep_view() =~= shards_view.skip(d + 1));
            assert(shards_view.take(d + 1).drop_last() =~= shards_view.take(d));
            assert(shards_view.take(d + 1).last() == shards_view[d]);
        }
        let ghost m_before = state.map_view();
        match process_shard(state, shard, watching_list) {
            Ok(mut recs) => {
                let ghost r0 = records@;
                let ghost r0_deep = records.deep_view();
                let ghost a0 = recs@;
                let ghost a0_deep = recs.deep_view();
                records.append(&mut recs);
                proof {
                    assert forall|j: int|
                        0 <= j < records.deep_view().len() implies records.deep_view()[j] == (
                        r0_deep + a0_deep)[j] by {
                        if j < r0.len() {
                            assert(records@[j] == r0[j]);
                            assert(records@[j].deep_view() == r0_deep[j]);
                        } else {
                            assert(records@[j] == a0[j - r0.len()]);
                            assert(records@[j].deep_view() == a0_deep[j - r0.len()]);
                        }
                    }
                    assert(records.deep_view() =~= r0_deep + a0_deep);
                    assert(records.deep_view() == spec_message_records(
                        m0,
                        shards_view.take(d + 1),
                        w,
                    ));
                }
            },
            Err(e) => {
                proof {
                    assert(spec_shard_map(m_before, shards_view[d], w) is None);
                    assert(spec_message_map(m0, shards_view.take(d + 1), w) is None);
                    lemma_message_none_mono(m0, shards_view, w, d + 1);
                    assert({
                        let shards2 = msg_view.shards;
                        &&& 0 <= d < shards2.len()
                        &&& spec_message_map(m0, shards2.take(d), w) is Some
                        &&& shard_err_state(
                            spec_message_map(m0, shards2.take(d), w)->Some_0,
                            shards2[d],
                            w,
                            state.map_view(),
                        )
                    });
                }
                return Err(e);
            },
        }
    }
    proof {
        assert(shards_view.take(shards_view.len() as int) =~= shards_view);
    }
    Ok(records)
}

} // verus!
