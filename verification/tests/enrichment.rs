use ckb_tx_detail_service::enrichment::{
    enrich_from_sources, enrich_transaction, source_tx_hashes, spent_output, start_enrichment,
    verify_inputs, EnrichmentStep,
};
use ckb_tx_detail_service::error::Error;
use ckb_tx_detail_service::types::{Input, OutPoint, Output, Script, Transaction};

fn script(args: &str) -> Script {
    Script {
        args: args.to_string(),
        code_hash: "0xc0de".to_string(),
        hash_type: "type".to_string(),
    }
}

fn input(tx_hash: &str, index: &str) -> Input {
    Input {
        previous_output: OutPoint {
            index: index.to_string(),
            tx_hash: tx_hash.to_string(),
        },
        since: "0x0".to_string(),
        capacity: None,
        lock: None,
        type_script: None,
    }
}

fn output(capacity: &str, with_type: bool) -> Output {
    Output {
        capacity: capacity.to_string(),
        lock: script(capacity),
        type_script: if with_type { Some(script("typed")) } else { None },
    }
}

fn transaction(hash: &str, inputs: Vec<Input>, outputs: Vec<Output>) -> Transaction {
    Transaction {
        hash: hash.to_string(),
        inputs,
        outputs,
        cell_deps: vec![],
        header_deps: vec!["h".to_string()],
        outputs_data: vec!["0x".to_string()],
        version: "0x0".to_string(),
        witnesses: vec!["w".to_string()],
    }
}

fn words(error: Error) -> String {
    match error {
        Error::TxProcessing(words) => words,
        other => panic!("unexpected error {:?}", other),
    }
}

fn sources() -> Vec<Transaction> {
    vec![
        transaction("0xa", vec![], vec![output("1", false), output("2", true)]),
        transaction("0xb", vec![], vec![output("3", false)]),
    ]
}

#[test]
fn each_source_is_asked_for_once_in_order_of_first_use() {
    let tx = transaction(
        "0x1",
        vec![input("0xb", "0x0"), input("0xa", "0x1"), input("0xb", "0x2")],
        vec![],
    );
    assert_eq!(source_tx_hashes(&tx), vec!["0xb".to_string(), "0xa".to_string()]);
}

#[test]
fn inputs_take_what_the_spent_outputs_hold() {
    let tx = transaction(
        "0x1",
        vec![input("0xa", "0x1"), input("0xb", "0x0"), input("0xa", "0x0")],
        vec![output("9", false)],
    );
    let hashes = source_tx_hashes(&tx);
    let res = enrich_transaction(tx, &hashes, Ok(sources())).unwrap();
    assert_eq!(res.hash, "0x1");
    assert_eq!(res.outputs.len(), 1);
    assert_eq!(res.header_deps, vec!["h".to_string()]);
    assert_eq!(res.witnesses, vec!["w".to_string()]);
    let capacities: Vec<Option<String>> = res.inputs.iter().map(|i| i.capacity.clone()).collect();
    assert_eq!(
        capacities,
        vec![Some("2".to_string()), Some("3".to_string()), Some("1".to_string())]
    );
    assert_eq!(res.inputs[0].lock.as_ref().unwrap().args, "2");
    assert_eq!(res.inputs[0].lock.as_ref().unwrap().code_hash, "0xc0de");
    assert_eq!(res.inputs[0].type_script.as_ref().unwrap().args, "typed");
    assert!(res.inputs[1].type_script.is_none());
    assert_eq!(res.inputs[0].previous_output.tx_hash, "0xa");
    assert_eq!(res.inputs[0].since, "0x0");
    assert!(verify_inputs(&res.inputs).is_ok());
}

#[test]
fn enriching_twice_is_enriching_once() {
    let tx = transaction("0x1", vec![input("0xa", "0x1")], vec![]);
    let hashes = source_tx_hashes(&tx);
    let once = enrich_transaction(tx, &hashes, Ok(sources())).unwrap();
    let again = enrich_transaction(once.clone(), &hashes, Ok(sources())).unwrap();
    assert_eq!(format!("{:?}", once), format!("{:?}", again));
}

#[test]
fn the_order_of_questions_makes_no_difference() {
    let tx = transaction("0x1", vec![input("0xa", "0x1"), input("0xb", "0")], vec![]);
    let forth = vec!["0xa".to_string(), "0xb".to_string()];
    let back = vec!["0xb".to_string(), "0xa".to_string()];
    let mut reversed = sources();
    reversed.reverse();
    let first = enrich_from_sources(tx.clone(), &forth, &sources()).unwrap();
    let second = enrich_from_sources(tx, &back, &reversed).unwrap();
    assert_eq!(format!("{:?}", first), format!("{:?}", second));
}

#[test]
fn a_transaction_without_inputs_needs_nothing() {
    match start_enrichment(transaction("0x1", vec![], vec![])) {
        EnrichmentStep::Finished(tx) => assert_eq!(tx.hash, "0x1"),
        EnrichmentStep::Fetch { .. } => panic!("nothing to fetch"),
    }
    match start_enrichment(transaction("0x1", vec![input("0xa", "0x0")], vec![])) {
        EnrichmentStep::Finished(_) => panic!("something to fetch"),
        EnrichmentStep::Fetch { tx, tx_hashes } => {
            assert_eq!(tx.hash, "0x1");
            assert_eq!(tx_hashes, vec!["0xa".to_string()]);
        }
    }
}

#[test]
fn a_failed_fetch_fails_the_enrichment() {
    let tx = transaction("0x1", vec![input("0xa", "0x0")], vec![]);
    let hashes = source_tx_hashes(&tx);
    let error = enrich_transaction(tx, &hashes, Err(Error::WebSocket("gone".to_string()))).unwrap_err();
    assert_eq!(error.message(), "WebSocket error: gone");
}

#[test]
fn a_missing_source_is_named() {
    let tx = transaction("0x1", vec![input("0xa", "0x0"), input("0xc", "zz")], vec![]);
    let hashes = source_tx_hashes(&tx);
    let error = enrich_transaction(tx, &hashes, Ok(vec![sources().remove(0)])).unwrap_err();
    assert_eq!(words(error), "Source transaction 0xc not found");
}

#[test]
fn a_missing_output_is_named_in_decimal() {
    let tx = transaction("0x1", vec![input("0xb", "0xff")], vec![]);
    let hashes = source_tx_hashes(&tx);
    let error = enrich_transaction(tx, &hashes, Ok(vec![sources().remove(1)])).unwrap_err();
    assert_eq!(words(error), "Output index 255 not found in transaction 0xb");
}

#[test]
fn the_first_failure_counts() {
    let tx = transaction("0x1", vec![input("0xa", "0x7"), input("0xa", "no")], vec![]);
    let hashes = source_tx_hashes(&tx);
    let error = enrich_transaction(tx, &hashes, Ok(sources())).unwrap_err();
    assert_eq!(words(error), "Output index 7 not found in transaction 0xa");
}

fn capacity_at(index: &str) -> Result<String, String> {
    let mut outputs = vec![];
    for n in 0..20 {
        outputs.push(output(&format!("{}", n), false));
    }
    let tx = transaction("0x1", vec![input("0xa", index)], vec![]);
    let hashes = source_tx_hashes(&tx);
    enrich_transaction(tx, &hashes, Ok(vec![transaction("0xa", vec![], outputs)]))
        .map(|tx| tx.inputs[0].capacity.clone().unwrap())
        .map_err(words)
}

#[test]
fn indices_are_hexadecimal() {
    assert_eq!(capacity_at("0x10"), Ok("16".to_string()));
    assert_eq!(capacity_at("0xA"), Ok("10".to_string()));
    assert_eq!(capacity_at("f"), Ok("15".to_string()));
    assert_eq!(capacity_at("0x0x0xb"), Ok("11".to_string()));
    assert_eq!(capacity_at("+3"), Ok("3".to_string()));
    assert_eq!(capacity_at("0x000000000000000000000000012"), Ok("18".to_string()));
}

#[test]
fn malformed_indices_are_rejected() {
    assert_eq!(capacity_at("0x"), Err("cannot parse integer from empty string".to_string()));
    assert_eq!(capacity_at(""), Err("cannot parse integer from empty string".to_string()));
    assert_eq!(capacity_at("+"), Err("invalid digit found in string".to_string()));
    assert_eq!(capacity_at("0xg"), Err("invalid digit found in string".to_string()));
    assert_eq!(capacity_at("-1"), Err("invalid digit found in string".to_string()));
    assert_eq!(capacity_at(" 1"), Err("invalid digit found in string".to_string()));
    assert_eq!(
        capacity_at("0x1ffffffffffffffffffff"),
        Err("number too large to fit in target type".to_string())
    );
}

#[test]
fn the_outcome_of_reading_an_index_decides() {
    let source = sources().remove(0);
    assert_eq!(spent_output(&source, "0xa", Ok(1)).unwrap().capacity, "2");
    assert_eq!(
        words(spent_output(&source, "0xa", Ok(2)).unwrap_err()),
        "Output index 2 not found in transaction 0xa"
    );
    assert_eq!(words(spent_output(&source, "0xa", Err("bad".to_string())).unwrap_err()), "bad");
}

#[test]
fn the_first_input_without_details_is_named() {
    let mut detailed = input("0xa", "0x0");
    detailed.capacity = Some("1".to_string());
    detailed.lock = Some(script("l"));
    let mut without_lock = input("0xa", "0x0");
    without_lock.capacity = Some("1".to_string());
    assert!(verify_inputs(&vec![]).is_ok());
    assert!(verify_inputs(&vec![detailed.clone()]).is_ok());
    let error = verify_inputs(&vec![detailed, without_lock, input("0xa", "0x0")]).unwrap_err();
    assert_eq!(words(error), "Failed to process input at index 1");
}

#[test]
fn a_missing_answer_leaves_no_input_bare() {
    let tx = transaction("0x1", vec![input("0xa", "0x0"), input("0xb", "0x0")], vec![]);
    let hashes = source_tx_hashes(&tx);
    assert!(enrich_transaction(tx, &hashes, Ok(vec![sources().remove(1)])).is_err());
}
