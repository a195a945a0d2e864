use ckb_tx_detail_service::websocket::{
    after_connect, transaction_request, ConnectAction, Delivery, ReceiveAction, Received, WsClient,
};
use serde_json::Value;

fn value(text: &str) -> Value {
    serde_json::from_str(text).unwrap()
}

fn strings(texts: &[&str]) -> Vec<String> {
    texts.iter().map(|text| text.to_string()).collect()
}

fn client_with(ids: &[&str]) -> WsClient<usize> {
    let mut client: WsClient<usize> = WsClient::new("ws://node");
    let channels: Vec<usize> = (0..ids.len()).collect();
    client.request_batch(&strings(ids), &strings(ids), channels).unwrap();
    client
}

fn ids(deliveries: &[Delivery]) -> Vec<String> {
    deliveries.iter().map(|delivery| delivery.id.clone()).collect()
}

#[test]
fn a_request_names_the_method_and_the_transaction() {
    let request = transaction_request("0x\"1", "id-1");
    assert_eq!(
        request,
        value("{\"jsonrpc\":\"2.0\",\"method\":\"get_transaction\",\"params\":[\"0x\\\"1\"],\"id\":\"id-1\"}")
    );
    assert_eq!(request.as_object().unwrap().len(), 4);
}

#[test]
fn a_batch_is_a_json_array_and_registers_its_channels() {
    let mut client: WsClient<char> = WsClient::new("ws://node");
    assert_eq!(client.ws_url(), "ws://node");
    assert!(client.channel("i").is_none());
    let text = client
        .request_batch(&strings(&["0xa", "0xb"]), &strings(&["i", "j"]), vec!['x', 'y'])
        .unwrap();
    assert_eq!(
        text,
        "[{\"id\":\"i\",\"jsonrpc\":\"2.0\",\"method\":\"get_transaction\",\"params\":[\"0xa\"]},\
         {\"id\":\"j\",\"jsonrpc\":\"2.0\",\"method\":\"get_transaction\",\"params\":[\"0xb\"]}]"
    );
    assert_eq!(client.channel("i"), Some(&'x'));
    assert_eq!(client.channel("j"), Some(&'y'));
    client.request_batch(&strings(&["0xc"]), &strings(&["j"]), vec!['z']).unwrap();
    assert_eq!(client.channel("i"), Some(&'x'));
    assert_eq!(client.channel("j"), Some(&'z'));
}

#[test]
fn requests_are_made_under_random_identifiers() {
    let mut client: WsClient<usize> = WsClient::new("ws://node");
    let text = client.get_transactions(&strings(&["0xa", "0xb"]), vec![10, 20]).unwrap().unwrap();
    let batch = value(&text);
    let mut seen: Vec<String> = vec![];
    for (i, request) in batch.as_array().unwrap().iter().enumerate() {
        let id = request["id"].as_str().unwrap();
        assert_eq!(id.len(), 36);
        for (at, c) in id.chars().enumerate() {
            if at == 8 || at == 13 || at == 18 || at == 23 {
                assert_eq!(c, '-');
            } else {
                assert!(c.is_ascii_digit() || ('a'..='f').contains(&c));
            }
        }
        assert_eq!(&id[14..15], "4");
        assert!(["8", "9", "a", "b"].contains(&&id[19..20]));
        assert_eq!(client.channel(id), Some(&(10 * (i + 1))));
        seen.push(id.to_string());
    }
    assert_eq!(batch[0]["params"][0], value("\"0xa\""));
    assert_eq!(batch[1]["params"][0], value("\"0xb\""));
    assert_ne!(seen[0], seen[1]);
}

#[test]
fn nothing_is_asked_for_nothing() {
    let mut client: WsClient<usize> = WsClient::new("ws://node");
    assert!(client.get_transactions(&vec![], vec![]).unwrap().is_none());
}

#[test]
fn a_single_response_is_delivered_to_who_waits_for_it() {
    let client = client_with(&["a", "b"]);
    let deliveries = client.route_message("{\"id\":\"b\",\"result\":1}");
    assert_eq!(ids(&deliveries), vec!["b".to_string()]);
    assert_eq!(deliveries[0].response, value("{\"id\":\"b\",\"result\":1}"));
    assert_eq!(client.channel(&deliveries[0].id), Some(&1));
}

#[test]
fn a_batch_of_responses_is_delivered_in_order() {
    let client = client_with(&["a", "b"]);
    let deliveries = client.route_message(
        "[{\"id\":\"b\"}, {\"id\":\"stranger\"}, {\"id\":7}, {}, 3, \"b\", {\"id\":\"a\"}, {\"id\":\"b\"}]",
    );
    assert_eq!(ids(&deliveries), vec!["b".to_string(), "a".to_string(), "b".to_string()]);
}

#[test]
fn what_is_no_json_is_not_delivered() {
    let client = client_with(&["a"]);
    assert!(client.route_message("{\"id\":\"a\"").is_empty());
    assert!(client.route_message("").is_empty());
    assert!(client.route_message("\"a\"").is_empty());
    assert!(client.route_message("[[{\"id\":\"a\"}]]").is_empty());
}

#[test]
fn a_request_read_as_a_response_carries_its_identifier() {
    let client = client_with(&["a"]);
    let deliveries = client.route_responses(transaction_request("0x1", "a"));
    assert_eq!(ids(&deliveries), vec!["a".to_string()]);
}

#[test]
fn a_frame_leaves_those_who_wait() {
    let mut client = client_with(&["a"]);
    match client.on_received(Received::Frame("{\"id\":\"a\"}".to_string())) {
        ReceiveAction::Deliver(deliveries) => assert_eq!(deliveries.len(), 1),
        ReceiveAction::Reconnect { .. } => panic!("the connection is fine"),
    }
    assert!(client.channel("a").is_some());
}

#[test]
fn a_lost_connection_leaves_nobody_waiting() {
    for received in [Received::Failed, Received::Ended] {
        let mut client = client_with(&["a"]);
        match client.on_received(received) {
            ReceiveAction::Deliver(_) => panic!("nothing to deliver"),
            ReceiveAction::Reconnect { delay_secs } => assert_eq!(delay_secs, 5),
        }
        assert!(client.channel("a").is_none());
        assert!(client.route_message("{\"id\":\"a\"}").is_empty());
        assert_eq!(client.ws_url(), "ws://node");
    }
}

#[test]
fn reconnecting_is_tried_until_it_succeeds() {
    assert!(matches!(after_connect(true), ConnectAction::Resume));
    assert!(matches!(after_connect(false), ConnectAction::Retry { delay_secs: 5 }));
}

#[test]
fn a_batch_reads_back_as_its_requests() {
    let hashes = ["0x\"\\", "", "\u{0}\n\u{e9}\u{1f600}"];
    let names = ["i", "j\u{7f}", "\t"];
    let mut client: WsClient<usize> = WsClient::new("ws://node");
    let text = client
        .request_batch(&strings(&hashes), &strings(&names), vec![0, 1, 2])
        .unwrap();
    let batch = value(&text);
    let requests = batch.as_array().unwrap();
    assert_eq!(requests.len(), 3);
    for i in 0..3 {
        assert_eq!(requests[i], transaction_request(hashes[i], names[i]));
    }
}

#[test]
fn replies_in_any_order_reach_their_channels() {
    let client = client_with(&["a", "b", "c"]);
    let deliveries = client
        .route_message("[{\"id\":\"c\",\"n\":2}, {\"id\":\"a\",\"n\":0}, {\"id\":\"b\",\"n\":1}]");
    assert_eq!(deliveries.len(), 3);
    for delivery in &deliveries {
        let channel = client.channel(&delivery.id).unwrap();
        assert_eq!(delivery.response["n"].as_u64().unwrap() as usize, *channel);
    }
}
