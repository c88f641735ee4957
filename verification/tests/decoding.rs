use tx_watcher::decode::decode_function_call_args;
use tx_watcher::filter::is_tx_receiver_watched;
use tx_watcher::model::Transaction;

fn tx_to(receiver: &str) -> Transaction {
    Transaction {
        hash: "h".to_string(),
        receiver_id: receiver.to_string(),
        receipt_ids: vec!["r".to_string()],
    }
}

#[test]
fn valid_base64_of_valid_json_decodes() {
    let args = base64::encode(b"{\"amount\":3,\"memo\":\"hi\"}");
    let value = decode_function_call_args(&args).expect("the chain must decode");
    let expected: serde_json::Value =
        serde_json::from_str("{\"amount\":3,\"memo\":\"hi\"}").unwrap();
    assert_eq!(value, expected);
    assert_eq!(value["amount"], serde_json::Value::from(3));
}

#[test]
fn invalid_base64_is_swallowed() {
    assert!(decode_function_call_args("!!!").is_none());
    assert!(decode_function_call_args("not*base64*at*all").is_none());
}

#[test]
fn valid_base64_of_invalid_json_is_swallowed() {
    let args = base64::encode(b"not json at all");
    assert!(decode_function_call_args(&args).is_none());
}

#[test]
fn empty_argument_text_does_not_parse() {
    // base64 of the empty string decodes to zero bytes, which are not a value
    assert!(decode_function_call_args("").is_none());
}

#[test]
fn watch_filter_is_exact_membership() {
    let watch = vec!["alice.test".to_string(), "dana.test".to_string()];
    assert!(is_tx_receiver_watched(&tx_to("alice.test"), &watch));
    assert!(is_tx_receiver_watched(&tx_to("dana.test"), &watch));
    assert!(!is_tx_receiver_watched(&tx_to("bob.test"), &watch));
    // exact equality: no case folding, no prefixes
    assert!(!is_tx_receiver_watched(&tx_to("Alice.test"), &watch));
    assert!(!is_tx_receiver_watched(&tx_to("alice.tes"), &watch));
    assert!(!is_tx_receiver_watched(&tx_to("alice.test.near"), &watch));
}

#[test]
fn empty_watch_list_matches_nothing() {
    let watch: Vec<String> = Vec::new();
    assert!(!is_tx_receiver_watched(&tx_to("alice.test"), &watch));
}
