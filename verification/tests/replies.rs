use ckb_tx_detail_service::enrichment::{enrich_transaction, source_tx_hashes};
use ckb_tx_detail_service::error::Error;
use ckb_tx_detail_service::replies::{read_batch, read_reply, BatchStep, Reading};
use ckb_tx_detail_service::types::{Input, OutPoint, Transaction, TransactionWrapper};
use serde_json::Value;

fn value(text: &str) -> Value {
    serde_json::from_str(text).unwrap()
}

fn transaction(hash: &str) -> Transaction {
    Transaction {
        hash: hash.to_string(),
        inputs: vec![],
        outputs: vec![],
        cell_deps: vec![],
        header_deps: vec![],
        outputs_data: vec![],
        version: "0x0".to_string(),
        witnesses: vec![],
    }
}

/// Reads an object with a `wrapped` member as a transaction with its status.
fn wrapped(value: &Value) -> Option<TransactionWrapper> {
    let hash = value.get("wrapped")?.as_str()?;
    Some(TransactionWrapper {
        transaction: transaction(hash),
        tx_status: "committed".to_string(),
        other: Value::Null,
    })
}

/// Reads a string as a transaction.
fn plain(value: &Value) -> Result<Transaction, String> {
    match value.as_str() {
        Some(hash) => Ok(transaction(hash)),
        None => Err("not a string".to_string()),
    }
}

/// Reads an object with a `tx_status` string as a transaction with its status.
fn with_status(value: &Value) -> Option<TransactionWrapper> {
    Some(TransactionWrapper {
        transaction: plain(value.get("transaction")?).ok()?,
        tx_status: value.get("tx_status")?.as_str()?.to_string(),
        other: Value::Null,
    })
}

fn run(replies: &[Option<&str>]) -> Result<Vec<String>, String> {
    run_with(replies, wrapped)
}

fn run_with(
    replies: &[Option<&str>],
    wrapped: fn(&Value) -> Option<TransactionWrapper>,
) -> Result<Vec<String>, String> {
    let tx_hashes: Vec<String> = (0..replies.len()).map(|i| format!("0x{}", i)).collect();
    let replies = replies.iter().map(|reply| reply.map(value)).collect();
    let mut step = read_batch(tx_hashes, replies);
    loop {
        step = match step {
            BatchStep::ParseWrapper { value, reader } => reader.wrapper_read(wrapped(&value)),
            BatchStep::ParseTransaction { value, reader } => reader.transaction_read(plain(&value)),
            BatchStep::Finished(res) => {
                return res
                    .map(|txs| txs.into_iter().map(|tx| tx.hash).collect())
                    .map_err(|e| match e {
                        Error::TxProcessing(words) => words,
                        other => panic!("unexpected error {:?}", other),
                    })
            }
        };
    }
}

fn hashes(list: &[&str]) -> Result<Vec<String>, String> {
    Ok(list.iter().map(|hash| hash.to_string()).collect())
}

fn failed(words: &str) -> Result<Vec<String>, String> {
    Err(words.to_string())
}

#[test]
fn no_replies_bring_no_transactions() {
    assert_eq!(run(&[]), hashes(&[]));
}

#[test]
fn a_result_is_read_with_its_status_or_by_its_transaction_member() {
    assert_eq!(run(&[Some("{\"result\":{\"wrapped\":\"a\"}}")]), hashes(&["a"]));
    assert_eq!(run(&[Some("{\"result\":{\"transaction\":\"b\"}}")]), hashes(&["b"]));
    assert_eq!(
        run(&[Some("{\"result\":{\"wrapped\":\"a\",\"transaction\":\"b\"},\"error\":1}")]),
        hashes(&["a"])
    );
}

#[test]
fn transactions_come_in_the_order_of_the_questions() {
    assert_eq!(
        run(&[
            Some("{\"result\":{\"transaction\":\"c\"}}"),
            Some("{\"result\":{\"wrapped\":\"a\"}}"),
            Some("{\"result\":{\"transaction\":\"b\"}}"),
        ]),
        hashes(&["c", "a", "b"])
    );
}

#[test]
fn a_reply_without_result_or_error_is_passed_over() {
    for empty in ["{\"id\":\"a\"}", "[]", "null", "7"] {
        assert_eq!(
            run(&[
                Some(empty),
                Some("{\"result\":{\"wrapped\":\"a\"}}"),
                Some(empty),
                Some("{\"result\":{\"wrapped\":\"b\"}}"),
                Some(empty),
            ]),
            hashes(&["a", "b"])
        );
    }
}

#[test]
fn a_closed_channel_is_a_failure() {
    assert_eq!(
        run(&[Some("{\"result\":{\"wrapped\":\"a\"}}"), None]),
        failed("Channel closed for transaction 0x1")
    );
}

#[test]
fn a_null_result_is_a_transaction_that_was_not_found() {
    assert_eq!(
        run(&[Some("{\"id\":\"a\",\"result\":null,\"error\":{}}")]),
        failed("Transaction not found: 0x0")
    );
}

#[test]
fn an_error_is_quoted() {
    assert_eq!(
        run(&[Some("{\"id\":\"a\",\"error\":{ \"message\" : \"no\", \"code\": -1 }}")]),
        failed("Error fetching transaction 0x0: {\"code\":-1,\"message\":\"no\"}")
    );
    assert_eq!(
        run(&[Some("{\"error\":null}")]),
        failed("Error fetching transaction 0x0: null")
    );
}

#[test]
fn a_result_without_a_transaction_is_a_failure() {
    assert_eq!(
        run(&[Some("{}"), Some("{\"result\":{\"tx\":1}}")]),
        failed("No transaction field found in response for 0x1")
    );
    assert_eq!(
        run(&[Some("{\"result\":false}")]),
        failed("No transaction field found in response for 0x0")
    );
}

#[test]
fn an_unreadable_transaction_is_a_failure() {
    assert_eq!(
        run(&[Some("{\"result\":{\"transaction\":{}}}")]),
        failed("Failed to parse transaction 0x0: not a string")
    );
}

#[test]
fn the_first_failed_reply_counts() {
    assert_eq!(
        run(&[
            Some("{\"result\":{\"wrapped\":\"a\"}}"),
            Some("{\"result\":{\"transaction\":3}}"),
            None,
        ]),
        failed("Failed to parse transaction 0x1: not a string")
    );
}

#[test]
fn a_reply_is_read_by_itself() {
    assert!(matches!(read_reply("0x1", &Some(value("{}"))), Reading::Nothing));
    match read_reply("0x1", &Some(value("{\"result\":[1]}"))) {
        Reading::Found(result) => assert_eq!(result, value("[1]")),
        _ => panic!("a result"),
    }
    match read_reply("0x1", &None) {
        Reading::Failed(error) => assert_eq!(
            error.message(),
            "Transaction processing error: Channel closed for transaction 0x1"
        ),
        _ => panic!("a failure"),
    }
}

#[test]
fn an_empty_reply_fails_the_enrichment() {
    let mut tx = transaction("0x9");
    for tx_hash in ["0x0", "0x1"] {
        tx.inputs.push(Input {
            previous_output: OutPoint { index: "0x0".to_string(), tx_hash: tx_hash.to_string() },
            since: "0x0".to_string(),
            capacity: None,
            lock: None,
            type_script: None,
        });
    }
    let tx_hashes = source_tx_hashes(&tx);
    let fetched = run(&[Some("{\"result\":{\"wrapped\":\"a\"}}"), Some("{}")]).unwrap();
    assert_eq!(fetched.len(), 1);
    let answers = fetched.iter().map(|hash| transaction(hash)).collect();
    assert!(enrich_transaction(tx, &tx_hashes, Ok(answers)).is_err());
}

#[test]
fn only_the_transaction_of_a_result_decides() {
    for rest in [
        ",\"tx_status\":\"committed\"",
        ",\"tx_status\":{\"status\":\"committed\",\"block_hash\":null}",
        ",\"cycles\":\"0x1\",\"time_added_to_pool\":null",
        "",
    ] {
        let good = format!("{{\"result\":{{\"transaction\":\"a\"{}}}}}", rest);
        let bad = format!("{{\"result\":{{\"transaction\":7{}}}}}", rest);
        assert_eq!(run_with(&[Some(&good)], with_status), hashes(&["a"]));
        assert_eq!(
            run_with(&[Some(&good), Some(&bad)], with_status),
            failed("Failed to parse transaction 0x1: not a string")
        );
    }
    assert_eq!(
        run_with(&[Some("{\"result\":{\"tx_status\":\"unknown\"}}")], with_status),
        failed("No transaction field found in response for 0x0")
    );
}
