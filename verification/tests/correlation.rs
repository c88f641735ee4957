use tx_watcher::engine::process_message;
use tx_watcher::engine::process_outcome;
use tx_watcher::engine::process_shard;
use tx_watcher::engine::process_transaction;
use tx_watcher::engine::EngineError;
use tx_watcher::filter::is_tx_receiver_watched;
use tx_watcher::model::Action;
use tx_watcher::model::Chunk;
use tx_watcher::model::ExecutionStatus;
use tx_watcher::model::ReceiptEnum;
use tx_watcher::model::ReceiptExecutionOutcome;
use tx_watcher::model::Shard;
use tx_watcher::model::StreamerMessage;
use tx_watcher::model::Transaction;
use tx_watcher::state::PendingState;

fn watch_list() -> Vec<String> {
    vec!["alice.test".to_string()]
}

fn tx(hash: &str, receiver: &str, receipt_ids: &[&str]) -> Transaction {
    Transaction {
        hash: hash.to_string(),
        receiver_id: receiver.to_string(),
        receipt_ids: receipt_ids.iter().map(|r| r.to_string()).collect(),
    }
}

fn plain_outcome(receipt_id: &str, receiver: &str) -> ReceiptExecutionOutcome {
    ReceiptExecutionOutcome {
        receipt_id: receipt_id.to_string(),
        receiver_id: receiver.to_string(),
        status: ExecutionStatus::SuccessValue(Vec::new()),
        receipt: ReceiptEnum::Other,
    }
}

#[test]
fn watched_transaction_registers_and_outcome_resolves() {
    let watch = watch_list();
    let mut state = PendingState::new();
    let t = tx("txA", "alice.test", &["r1"]);
    assert_eq!(process_transaction(&mut state, &t, &watch), Ok(true));
    assert_eq!(state.len(), 1);
    assert!(state.contains(&"r1".to_string()));

    let rec = process_outcome(&mut state, plain_outcome("r1", "alice.test"))
        .expect("a registered receipt id must resolve");
    assert_eq!(rec.tx_hash, "txA");
    assert_eq!(rec.receiver_id, "alice.test");
    assert!(matches!(rec.status, ExecutionStatus::SuccessValue(_)));
    assert_eq!(rec.signer_id, None);
    assert!(rec.decoded_args.is_empty());
    assert_eq!(state.len(), 0);
}

#[test]
fn unwatched_receiver_registers_nothing() {
    let watch = watch_list();
    let mut state = PendingState::new();
    let t = tx("txB", "bob.test", &["r9"]);
    assert!(!is_tx_receiver_watched(&t, &watch));
    assert_eq!(process_transaction(&mut state, &t, &watch), Ok(false));
    assert_eq!(state.len(), 0);
    assert!(process_outcome(&mut state, plain_outcome("r9", "bob.test")).is_none());
    assert_eq!(state.len(), 0);
}

#[test]
fn watched_transaction_without_receipt_ids_is_fatal() {
    let watch = watch_list();
    let mut state = PendingState::new();
    let t = tx("txC", "alice.test", &[]);
    assert_eq!(
        process_transaction(&mut state, &t, &watch),
        Err(EngineError::NoReceiptIds)
    );
    assert_eq!(state.len(), 0);
}

#[test]
fn fatal_transaction_aborts_shard_before_later_registrations() {
    let watch = watch_list();
    let mut state = PendingState::new();
    let shard = Shard {
        chunk: Some(Chunk {
            transactions: vec![
                tx("txOk", "alice.test", &["r1"]),
                tx("txBad", "alice.test", &[]),
                tx("txAfter", "alice.test", &["r2"]),
            ],
        }),
        receipt_execution_outcomes: Vec::new(),
    };
    let r = process_shard(&mut state, shard, &watch);
    assert!(matches!(r, Err(EngineError::NoReceiptIds)));
    // the registration before the fatal transaction is applied, nothing after
    assert_eq!(state.len(), 1);
    assert!(state.contains(&"r1".to_string()));
    assert!(!state.contains(&"r2".to_string()));
}

#[test]
fn unregistered_outcome_is_ignored_and_state_unchanged() {
    let watch = watch_list();
    let mut state = PendingState::new();
    let t = tx("txA", "alice.test", &["r1"]);
    process_transaction(&mut state, &t, &watch).unwrap();
    assert!(process_outcome(&mut state, plain_outcome("other", "alice.test")).is_none());
    assert_eq!(state.len(), 1);
    assert!(state.contains(&"r1".to_string()));
}

#[test]
fn resolution_consumes_a_match_exactly_once() {
    let watch = watch_list();
    let mut state = PendingState::new();
    process_transaction(&mut state, &tx("txA", "alice.test", &["r1"]), &watch).unwrap();
    assert!(process_outcome(&mut state, plain_outcome("r1", "alice.test")).is_some());
    assert!(process_outcome(&mut state, plain_outcome("r1", "alice.test")).is_none());
    assert_eq!(state.len(), 0);
}

#[test]
fn outcome_before_transaction_never_resolves() {
    let watch = watch_list();
    let mut state = PendingState::new();
    assert!(process_outcome(&mut state, plain_outcome("r1", "alice.test")).is_none());
    process_transaction(&mut state, &tx("txA", "alice.test", &["r1"]), &watch).unwrap();
    let rec = process_outcome(&mut state, plain_outcome("r1", "alice.test")).unwrap();
    assert_eq!(rec.tx_hash, "txA");
}

#[test]
fn only_the_first_declared_receipt_id_is_tracked() {
    let watch = watch_list();
    let mut state = PendingState::new();
    process_transaction(&mut state, &tx("txA", "alice.test", &["r1", "r2"]), &watch).unwrap();
    assert!(process_outcome(&mut state, plain_outcome("r2", "alice.test")).is_none());
    let rec = process_outcome(&mut state, plain_outcome("r1", "alice.test")).unwrap();
    assert_eq!(rec.tx_hash, "txA");
    assert_eq!(state.len(), 0);
}

#[test]
fn reregistered_receipt_id_keeps_the_latest_hash() {
    let watch = watch_list();
    let mut state = PendingState::new();
    process_transaction(&mut state, &tx("txOld", "alice.test", &["r1"]), &watch).unwrap();
    process_transaction(&mut state, &tx("txNew", "alice.test", &["r1"]), &watch).unwrap();
    assert_eq!(state.len(), 1);
    let rec = process_outcome(&mut state, plain_outcome("r1", "alice.test")).unwrap();
    assert_eq!(rec.tx_hash, "txNew");
}

#[test]
fn shard_without_chunk_is_skipped_silently() {
    let watch = watch_list();
    let mut state = PendingState::new();
    let shard = Shard { chunk: None, receipt_execution_outcomes: Vec::new() };
    let records = process_shard(&mut state, shard, &watch).unwrap();
    assert!(records.is_empty());
    assert_eq!(state.len(), 0);
}

#[test]
fn chunkless_shard_outcomes_are_not_examined() {
    let watch = watch_list();
    let mut state = PendingState::new();
    process_transaction(&mut state, &tx("txA", "alice.test", &["r1"]), &watch).unwrap();
    // the outcome rides in a shard with no chunk: the whole shard is skipped,
    // so the match stays pending
    let shard = Shard {
        chunk: None,
        receipt_execution_outcomes: vec![plain_outcome("r1", "alice.test")],
    };
    let records = process_shard(&mut state, shard, &watch).unwrap();
    assert!(records.is_empty());
    assert_eq!(state.len(), 1);
    assert!(state.contains(&"r1".to_string()));
    // the same outcome in a shard with a populated chunk resolves it
    let shard = Shard {
        chunk: Some(Chunk { transactions: Vec::new() }),
        receipt_execution_outcomes: vec![plain_outcome("r1", "alice.test")],
    };
    let records = process_shard(&mut state, shard, &watch).unwrap();
    assert_eq!(records.len(), 1);
    assert_eq!(records[0].tx_hash, "txA");
    assert_eq!(state.len(), 0);
}

#[test]
fn registration_pass_runs_before_resolution_pass_within_a_shard() {
    let watch = watch_list();
    let mut state = PendingState::new();
    let shard = Shard {
        chunk: Some(Chunk { transactions: vec![tx("txA", "alice.test", &["r1"])] }),
        receipt_execution_outcomes: vec![plain_outcome("r1", "alice.test")],
    };
    let records = process_shard(&mut state, shard, &watch).unwrap();
    assert_eq!(records.len(), 1);
    assert_eq!(records[0].tx_hash, "txA");
    assert_eq!(state.len(), 0);
}

#[test]
fn match_resolves_across_block_messages() {
    let watch = watch_list();
    let mut state = PendingState::new();
    let first = StreamerMessage {
        height: 1,
        shards: vec![Shard {
            chunk: Some(Chunk { transactions: vec![tx("txA", "alice.test", &["r1"])] }),
            receipt_execution_outcomes: Vec::new(),
        }],
    };
    let records = process_message(&mut state, first, &watch).unwrap();
    assert!(records.is_empty());
    assert_eq!(state.len(), 1);

    let second = StreamerMessage {
        height: 2,
        shards: vec![Shard {
            chunk: Some(Chunk { transactions: Vec::new() }),
            receipt_execution_outcomes: vec![plain_outcome("r1", "alice.test")],
        }],
    };
    let records = process_message(&mut state, second, &watch).unwrap();
    assert_eq!(records.len(), 1);
    assert_eq!(records[0].tx_hash, "txA");
    assert!(matches!(records[0].status, ExecutionStatus::SuccessValue(_)));
    assert_eq!(state.len(), 0);
}

#[test]
fn action_receipt_surfaces_signer_and_decoded_arguments() {
    let watch = watch_list();
    let mut state = PendingState::new();
    process_transaction(&mut state, &tx("txA", "alice.test", &["r1"]), &watch).unwrap();
    let outcome = ReceiptExecutionOutcome {
        receipt_id: "r1".to_string(),
        receiver_id: "alice.test".to_string(),
        status: ExecutionStatus::SuccessValue(Vec::new()),
        receipt: ReceiptEnum::Action {
            signer_id: "carol.test".to_string(),
            actions: vec![
                Action::FunctionCall { args: base64::encode(b"{\"k\":\"v\"}") },
                Action::FunctionCall { args: "!not base64!".to_string() },
                Action::Other,
            ],
        },
    };
    let rec = process_outcome(&mut state, outcome).unwrap();
    assert_eq!(rec.signer_id, Some("carol.test".to_string()));
    assert_eq!(rec.decoded_args.len(), 1);
    let expected: serde_json::Value = serde_json::from_str("{\"k\":\"v\"}").unwrap();
    assert_eq!(rec.decoded_args[0], expected);
}

#[test]
fn invalid_base64_arguments_do_not_block_the_record() {
    let watch = watch_list();
    let mut state = PendingState::new();
    process_transaction(&mut state, &tx("txA", "alice.test", &["r1"]), &watch).unwrap();
    let outcome = ReceiptExecutionOutcome {
        receipt_id: "r1".to_string(),
        receiver_id: "alice.test".to_string(),
        status: ExecutionStatus::SuccessValue(Vec::new()),
        receipt: ReceiptEnum::Action {
            signer_id: "carol.test".to_string(),
            actions: vec![Action::FunctionCall { args: "!!!".to_string() }],
        },
    };
    let rec = process_outcome(&mut state, outcome)
        .expect("a failed decode must not prevent the record");
    assert_eq!(rec.tx_hash, "txA");
    assert!(rec.decoded_args.is_empty());
    assert_eq!(state.len(), 0);
}
