//! The data that flows through the correlation engine: transactions with
//! their declared receipt ids, receipt execution outcomes, and the shards and
//! block messages that carry them. Each type has a ghost view over sequences
//! of characters and bytes, which the contracts speak of.

use vstd::prelude::*;

verus! {

/// Execution status of a receipt's outcome, carried into the log record
/// unchanged.
#[derive(Debug)]
pub enum ExecutionStatus {
    Unknown,
    Failure,
    SuccessValue(Vec<u8>),
    SuccessReceiptId(String),
}

pub ghost enum StatusView {
    Unknown,
    Failure,
    SuccessValue(Seq<u8>),
    SuccessReceiptId(Seq<char>),
}

impl View for ExecutionStatus {
    type V = StatusView;

    open spec fn view(&self) -> StatusView {
        match self {
            ExecutionStatus::Unknown => StatusView::Unknown,
            ExecutionStatus::Failure => StatusView::Failure,
            ExecutionStatus::SuccessValue(v) => StatusView::SuccessValue(v@),
            ExecutionStatus::SuccessReceiptId(s) => StatusView::SuccessReceiptId(s@),
        }
    }
}

impl DeepView for ExecutionStatus {
    type V = StatusView;

    open spec fn deep_view(&self) -> StatusView {
        self.view()
    }
}

/// One action carried by an action receipt. Only a function call carries
/// argument text that this library inspects; every other kind is ignored, so
/// they all stand under one variant.
#[derive(Debug)]
pub enum Action {
    /// `args` is the base64 text of the call arguments.
    FunctionCall { args: String },
    Other,
}

pub ghost enum ActionModel {
    FunctionCall { args: Seq<char> },
    Other,
}

impl View for Action {
    type V = ActionModel;

    open spec fn view(&self) -> ActionModel {
        match self {
            Action::FunctionCall { args } => ActionModel::FunctionCall { args: args@ },
            Action::Other => ActionModel::Other,
        }
    }
}

impl DeepView for Action {
    type V = ActionModel;

    open spec fn deep_view(&self) -> ActionModel {
        self.view()
    }
}

/// The body of a receipt: an action receipt carries a signer and an ordered
/// list of actions; every other variant is ignored by this library.
#[derive(Debug)]
pub enum ReceiptEnum {
    Action { signer_id: String, actions: Vec<Action> },
    Other,
}

pub ghost enum ReceiptEnumView {
    Action { signer_id: Seq<char>, actions: Seq<ActionModel> },
    Other,
}

impl View for ReceiptEnum {
    type V = ReceiptEnumView;

    open spec fn view(&self) -> ReceiptEnumView {
        match self {
            ReceiptEnum::Action { signer_id, actions } => ReceiptEnumView::Action {
                signer_id: signer_id@,
                actions: actions.deep_view(),
            },
            ReceiptEnum::Other => ReceiptEnumView::Other,
        }
    }
}

impl DeepView for ReceiptEnum {
    type V = ReceiptEnumView;

    open spec fn deep_view(&self) -> ReceiptEnumView {
        self.view()
    }
}

/// A transaction together with the receipt ids its conversion declared, as
/// the stream reports it.
#[derive(Debug)]
pub struct Transaction {
    pub hash: String,
    pub receiver_id: String,
    /// The receipt ids the transaction was converted into. By protocol
    /// guarantee this list is never empty; the engine treats an empty list on
    /// a watched transaction as a fatal invariant violation.
    pub receipt_ids: Vec<String>,
}

pub ghost struct TransactionView {
    pub hash: Seq<char>,
    pub receiver_id: Seq<char>,
    pub receipt_ids: Seq<Seq<char>>,
}

impl View for Transaction {
    type V = TransactionView;

    open spec fn view(&self) -> TransactionView {
        TransactionView {
            hash: self.hash@,
            receiver_id: self.receiver_id@,
            receipt_ids: self.receipt_ids.deep_view(),
        }
    }
}

impl DeepView for Transaction {
    type V = TransactionView;

    open spec fn deep_view(&self) -> TransactionView {
        self.view()
    }
}

/// The execution outcome of one receipt.
#[derive(Debug)]
pub struct ReceiptExecutionOutcome {
    pub receipt_id: String,
    pub receiver_id: String,
    pub status: ExecutionStatus,
    pub receipt: ReceiptEnum,
}

pub ghost struct OutcomeView {
    pub receipt_id: Seq<char>,
    pub receiver_id: Seq<char>,
    pub status: StatusView,
    pub receipt: ReceiptEnumView,
}

impl View for ReceiptExecutionOutcome {
    type V = OutcomeView;

    open spec fn view(&self) -> OutcomeView {
        OutcomeView {
            receipt_id: self.receipt_id@,
            receiver_id: self.receiver_id@,
            status: self.status@,
            receipt: self.receipt@,
        }
    }
}

impl DeepView for ReceiptExecutionOutcome {
    type V = OutcomeView;

    open spec fn deep_view(&self) -> OutcomeView {
        self.view()
    }
}

/// The newly included transactions of a shard in one block; absent when the
/// shard produced no chunk this block.
#[derive(Debug)]
pub struct Chunk {
    pub transactions: Vec<Transaction>,
}

pub ghost struct ChunkView {
    pub transactions: Seq<TransactionView>,
}

impl View for Chunk {
    type V = ChunkView;

    open spec fn view(&self) -> ChunkView {
        ChunkView { transactions: self.transactions.deep_view() }
    }
}

impl DeepView for Chunk {
    type V = ChunkView;

    open spec fn deep_view(&self) -> ChunkView {
        self.view()
    }
}

/// One shard of a block message: an optional chunk of new transactions and
/// the receipt execution outcomes reported for the shard.
#[derive(Debug)]
pub struct Shard {
    pub chunk: Option<Chunk>,
    pub receipt_execution_outcomes: Vec<ReceiptExecutionOutcome>,
}

pub ghost struct ShardView {
    pub chunk: Option<ChunkView>,
    pub receipt_execution_outcomes: Seq<OutcomeView>,
}

impl View for Shard {
    type V = ShardView;

    open spec fn view(&self) -> ShardView {
        ShardView {
            chunk: match self.chunk {
                Some(c) => Some(c@),
                None => None,
            },
            receipt_execution_outcomes: self.receipt_execution_outcomes.deep_view(),
        }
    }
}

impl DeepView for Shard {
    type V = ShardView;

    open spec fn deep_view(&self) -> ShardView {
        self.view()
    }
}

/// One message of the block stream: the block height and the block's shards.
#[derive(Debug)]
pub struct StreamerMessage {
    pub height: u64,
    pub shards: Vec<Shard>,
}

pub ghost struct MessageView {
    pub height: u64,
    pub shards: Seq<ShardView>,
}

impl View for StreamerMessage {
    type V = MessageView;

    open spec fn view(&self) -> MessageView {
        MessageView { height: self.height, shards: self.shards.deep_view() }
    }
}

} // verus!
