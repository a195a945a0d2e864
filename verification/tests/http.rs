use ckb_tx_detail_service::error::Error;
use ckb_tx_detail_service::http::{
    get_and_enrich_transaction, get_transaction_handler, listen_address, normalize_tx_hash,
    post_transaction_handler, validate_tx_hash, Lookup, LookupStep, Reply, StatusCode,
    TransactionRequest,
};
use ckb_tx_detail_service::types::{Input, OutPoint, Output, Script, Transaction};

const DIGITS: &str = "0123456789abcdefABCDEF0123456789abcdefABCDEF0123456789abcdefABCD";

fn transaction(hash: &str, spends: &[&str], capacities: &[&str]) -> Transaction {
    Transaction {
        hash: hash.to_string(),
        inputs: spends
            .iter()
            .map(|tx_hash| Input {
                previous_output: OutPoint {
                    index: "0x0".to_string(),
                    tx_hash: tx_hash.to_string(),
                },
                since: "0x0".to_string(),
                capacity: None,
                lock: None,
                type_script: None,
            })
            .collect(),
        outputs: capacities
            .iter()
            .map(|capacity| Output {
                capacity: capacity.to_string(),
                lock: Script {
                    args: "0x".to_string(),
                    code_hash: "0x".to_string(),
                    hash_type: "data".to_string(),
                },
                type_script: None,
            })
            .collect(),
        cell_deps: vec![],
        header_deps: vec![],
        outputs_data: vec![],
        version: "0x0".to_string(),
        witnesses: vec![],
    }
}

fn reply(step: LookupStep) -> Reply {
    match step {
        LookupStep::Finished(reply) => reply,
        LookupStep::Fetch { .. } => panic!("not finished"),
    }
}

fn question(step: LookupStep) -> (Vec<String>, Lookup) {
    match step {
        LookupStep::Fetch { tx_hashes, next } => (tx_hashes, next),
        LookupStep::Finished(_) => panic!("already finished"),
    }
}

#[test]
fn a_prefix_is_added_once() {
    assert_eq!(normalize_tx_hash("ab"), "0xab");
    assert_eq!(normalize_tx_hash("0xab"), "0xab");
    assert_eq!(normalize_tx_hash("0x0xab"), "0x0xab");
    assert_eq!(normalize_tx_hash(""), "0x");
    assert_eq!(normalize_tx_hash("0Xab"), "0x0Xab");
    assert_eq!(normalize_tx_hash(&normalize_tx_hash("é")), "0xé");
}

#[test]
fn hashes_are_accepted_with_and_without_prefix() {
    let full = format!("0x{}", DIGITS);
    assert_eq!(validate_tx_hash(DIGITS), Ok(full.clone()));
    assert_eq!(validate_tx_hash(&full), Ok(full));
}

#[test]
fn malformed_hashes_are_refused() {
    let refused: Result<String, String> = Err("Invalid transaction hash format".to_string());
    assert_eq!(validate_tx_hash(""), refused);
    assert_eq!(validate_tx_hash("0x"), refused);
    assert_eq!(validate_tx_hash(&DIGITS[1..]), refused);
    assert_eq!(validate_tx_hash(&format!("{}0", DIGITS)), refused);
    assert_eq!(validate_tx_hash(&format!("g{}", &DIGITS[1..])), refused);
    assert_eq!(validate_tx_hash(&format!("0x0x{}", DIGITS)), refused);
    assert_eq!(validate_tx_hash(&format!("0X{}", &DIGITS[2..])), refused);
    assert_eq!(validate_tx_hash(&format!("é{}", &DIGITS[2..])), refused);
}

#[test]
fn a_malformed_hash_is_a_bad_request() {
    let (status, message) = reply(get_transaction_handler("xyz")).unwrap_err();
    assert_eq!(status, StatusCode::BadRequest);
    assert_eq!(status.as_u16(), 400);
    assert_eq!(message, "HTTP error: Invalid transaction hash format");
}

#[test]
fn a_query_by_path_asks_for_details() {
    let (tx_hashes, next) = question(get_transaction_handler(DIGITS));
    assert_eq!(tx_hashes, vec![format!("0x{}", DIGITS)]);
    let (sources, next) = question(next.resume(Ok(vec![transaction("0x1", &["0xa", "0xb", "0xa"], &[])])));
    assert_eq!(sources, vec!["0xa".to_string(), "0xb".to_string()]);
    let fetched = vec![transaction("0xa", &[], &["7"]), transaction("0xb", &[], &["8"])];
    let tx = reply(next.resume(Ok(fetched))).unwrap();
    assert_eq!(tx.hash, "0x1");
    let capacities: Vec<String> = tx.inputs.into_iter().map(|i| i.capacity.unwrap()).collect();
    assert_eq!(capacities, vec!["7".to_string(), "8".to_string(), "7".to_string()]);
}

#[test]
fn a_query_by_body_says_whether_it_asks_for_details() {
    let plain = TransactionRequest { tx_hash: DIGITS.to_string(), enrich: false };
    let (_, next) = question(post_transaction_handler(&plain));
    let tx = reply(next.resume(Ok(vec![transaction("0x1", &["0xa"], &[])]))).unwrap();
    assert!(tx.inputs[0].capacity.is_none());

    let detailed = TransactionRequest { tx_hash: DIGITS.to_string(), enrich: true };
    let (_, next) = question(post_transaction_handler(&detailed));
    let (sources, _) = question(next.resume(Ok(vec![transaction("0x1", &["0xa"], &[])])));
    assert_eq!(sources, vec!["0xa".to_string()]);
}

#[test]
fn a_transaction_without_inputs_is_sent_as_it_is() {
    let (_, next) = question(get_and_enrich_transaction(DIGITS, true));
    let tx = reply(next.resume(Ok(vec![transaction("0x1", &[], &["5"])]))).unwrap();
    assert_eq!(tx.outputs[0].capacity, "5");
}

#[test]
fn of_several_transactions_the_last_counts() {
    let (_, next) = question(get_and_enrich_transaction(DIGITS, false));
    let fetched = vec![transaction("0x1", &[], &[]), transaction("0x2", &[], &[])];
    assert_eq!(reply(next.resume(Ok(fetched))).unwrap().hash, "0x2");
}

#[test]
fn an_unknown_transaction_is_not_found_under_the_hash_that_was_given() {
    let (_, next) = question(get_transaction_handler(DIGITS));
    let (status, message) = reply(next.resume(Ok(vec![]))).unwrap_err();
    assert_eq!(status, StatusCode::NotFound);
    assert_eq!(status.as_u16(), 404);
    assert_eq!(message, format!("Transaction {} not found", DIGITS));
}

#[test]
fn a_failed_fetch_is_an_internal_error() {
    let (_, next) = question(get_transaction_handler(DIGITS));
    let (status, message) = reply(next.resume(Err(Error::TxProcessing("no".to_string())))).unwrap_err();
    assert_eq!(status, StatusCode::InternalServerError);
    assert_eq!(status.as_u16(), 500);
    assert_eq!(message, "Failed to fetch transaction: Transaction processing error: no");
}

#[test]
fn a_failed_enrichment_is_an_internal_error() {
    let (_, next) = question(get_transaction_handler(DIGITS));
    let (_, next) = question(next.resume(Ok(vec![transaction("0x1", &["0xa"], &[])])));
    let (status, message) = reply(next.resume(Ok(vec![]))).unwrap_err();
    assert_eq!(status, StatusCode::InternalServerError);
    assert_eq!(
        message,
        "Failed to enrich transaction: Transaction processing error: Source transaction 0xa not found"
    );

    let (_, next) = question(get_transaction_handler(DIGITS));
    let (_, next) = question(next.resume(Ok(vec![transaction("0x1", &["0xa"], &[])])));
    let (_, message) = reply(next.resume(Err(Error::Json("j".to_string())))).unwrap_err();
    assert_eq!(message, "Failed to enrich transaction: JSON error: j");
}

#[test]
fn the_listen_address_joins_host_and_port() {
    assert_eq!(listen_address("0.0.0.0", 3112), "0.0.0.0:3112");
    assert_eq!(listen_address("::", 0), ":::0");
    assert_eq!(listen_address("h", 65535), "h:65535");
    assert_eq!(listen_address("h", 10), "h:10");
}
