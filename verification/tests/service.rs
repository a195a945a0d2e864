use ckb_tx_detail_service::config::{Config, ConfigVars};
use ckb_tx_detail_service::error::Error;
use ckb_tx_detail_service::service::{
    mqtt_options, process_transaction, receive_message, MessageStep, MqttAction, MqttEvent, QoS,
    RoundAction, RoundEvent, TxDetailService,
};
use ckb_tx_detail_service::types::{Input, OutPoint, Output, Script, Transaction};

fn config(username: Option<&str>, password: Option<&str>) -> Config {
    Config::from_env(Ok(ConfigVars {
        ckb_ws_url: None,
        mqtt_host: Some("broker".to_string()),
        mqtt_port: Some(18),
        mqtt_client_id: Some("client".to_string()),
        mqtt_username: username.map(|text| text.to_string()),
        mqtt_password: password.map(|text| text.to_string()),
        mqtt_subscribe_topic: Some("in".to_string()),
        mqtt_publish_topic: Some("out".to_string()),
        concurrent_requests: None,
        http_address: None,
        http_port: None,
    }))
    .unwrap()
}

fn transaction(spends: &[&str]) -> Transaction {
    Transaction {
        hash: "0x1".to_string(),
        inputs: spends
            .iter()
            .map(|tx_hash| Input {
                previous_output: OutPoint {
                    index: "0x0".to_string(),
                    tx_hash: tx_hash.to_string(),
                },
                since: "0x0".to_string(),
                capacity: None,
                lock: None,
                type_script: None,
            })
            .collect(),
        outputs: vec![Output {
            capacity: "6".to_string(),
            lock: Script {
                args: "0x".to_string(),
                code_hash: "0x".to_string(),
                hash_type: "data".to_string(),
            },
            type_script: None,
        }],
        cell_deps: vec![],
        header_deps: vec![],
        outputs_data: vec![],
        version: "0x0".to_string(),
        witnesses: vec![],
    }
}

#[test]
fn the_client_connects_as_configured() {
    let options = mqtt_options(&config(Some("user"), Some("pass")));
    assert_eq!(options.client_id(), "client");
    assert_eq!(options.broker_address(), ("broker".to_string(), 18));
    assert_eq!(options.credentials(), Some(("user".to_string(), "pass".to_string())));
    assert_eq!(options.keep_alive().as_secs(), 60);
    assert!(options.clean_session());
}

#[test]
fn credentials_need_both_parts() {
    assert_eq!(mqtt_options(&config(None, None)).credentials(), None);
    assert_eq!(mqtt_options(&config(Some("user"), None)).credentials(), None);
    assert_eq!(mqtt_options(&config(None, Some("pass"))).credentials(), None);
}

#[test]
fn the_delay_doubles_up_to_a_minute() {
    let mut service = TxDetailService::new(config(None, None));
    assert_eq!(service.delay_secs(), None);
    let mut delays: Vec<u64> = vec![];
    for _ in 0..8 {
        assert!(matches!(
            service.after_round(RoundEvent::ConnectionLost),
            RoundAction::Continue { reconnected: false }
        ));
        delays.push(service.delay_secs().unwrap());
    }
    assert_eq!(delays, vec![2, 4, 8, 16, 32, 64, 64, 64]);
    assert_eq!(service.reconnect_attempts(), 8);
    assert!(matches!(
        service.after_round(RoundEvent::Handled),
        RoundAction::Continue { reconnected: true }
    ));
    assert_eq!(service.reconnect_attempts(), 0);
    assert_eq!(service.delay_secs(), None);
    assert!(matches!(
        service.after_round(RoundEvent::Handled),
        RoundAction::Continue { reconnected: false }
    ));
}

#[test]
fn a_failed_handler_stops_the_service() {
    let mut service = TxDetailService::new(config(None, None));
    match service.after_round(RoundEvent::HandlerFailed(Error::Mqtt("full".to_string()))) {
        RoundAction::Stop(error) => assert_eq!(error.message(), "MQTT error: full"),
        RoundAction::Continue { .. } => panic!("the service goes on"),
    }
}

#[test]
fn a_new_connection_is_subscribed() {
    let service = TxDetailService::new(config(None, None));
    assert_eq!(service.config().mqtt_publish_topic, "out");
    match service.handle_mqtt_event(MqttEvent::ConnAck) {
        MqttAction::Subscribe { topic, qos } => {
            assert_eq!(topic, "in");
            assert_eq!(qos, QoS::AtLeastOnce);
        }
        _ => panic!("not subscribed"),
    }
}

#[test]
fn only_messages_are_processed() {
    let service = TxDetailService::new(config(None, None));
    let event = MqttEvent::Publish { topic: "t".to_string(), payload: vec![1, 2] };
    match service.handle_mqtt_event(event) {
        MqttAction::Process { topic, payload } => {
            assert_eq!(topic, "t");
            assert_eq!(payload, vec![1, 2]);
        }
        _ => panic!("not processed"),
    }
    assert!(matches!(
        service.handle_mqtt_event(MqttEvent::Disconnect),
        MqttAction::AwaitReconnect
    ));
    assert!(matches!(service.handle_mqtt_event(MqttEvent::Other), MqttAction::Ignore));
}

#[test]
fn a_message_that_is_no_transaction_is_dropped() {
    assert!(matches!(receive_message(None, "out"), MessageStep::Discard));
}

#[test]
fn a_transaction_is_published_with_its_details() {
    let (tx, tx_hashes) = match receive_message(Some(transaction(&["0xa", "0xa"])), "out") {
        MessageStep::Fetch { tx, tx_hashes } => (tx, tx_hashes),
        _ => panic!("nothing fetched"),
    };
    assert_eq!(tx_hashes, vec!["0xa".to_string()]);
    match process_transaction(tx, &tx_hashes, Ok(vec![transaction(&[])]), "out") {
        MessageStep::Publish(publication) => {
            assert_eq!(publication.topic, "out");
            assert_eq!(publication.qos, QoS::AtLeastOnce);
            assert!(!publication.retain);
            assert_eq!(publication.tx.inputs[0].capacity, Some("6".to_string()));
            assert_eq!(publication.tx.inputs[1].capacity, Some("6".to_string()));
        }
        _ => panic!("not published"),
    }
}

#[test]
fn a_transaction_without_inputs_is_published_at_once() {
    match receive_message(Some(transaction(&[])), "out") {
        MessageStep::Publish(publication) => assert_eq!(publication.tx.hash, "0x1"),
        _ => panic!("not published"),
    }
}

#[test]
fn a_transaction_that_cannot_be_enriched_is_not_published() {
    let hashes = vec!["0xa".to_string()];
    match process_transaction(transaction(&["0xa"]), &hashes, Ok(vec![]), "out") {
        MessageStep::Failed(error) => assert_eq!(
            error.message(),
            "Transaction processing error: Source transaction 0xa not found"
        ),
        _ => panic!("not failed"),
    }
    let lost = Err(Error::WebSocket("lost".to_string()));
    match process_transaction(transaction(&["0xa"]), &hashes, lost, "out") {
        MessageStep::Failed(error) => assert_eq!(error.message(), "WebSocket error: lost"),
        _ => panic!("not failed"),
    }
}
