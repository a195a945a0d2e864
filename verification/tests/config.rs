use ckb_tx_detail_service::config::{Config, ConfigVars};
use ckb_tx_detail_service::error::Error;

fn empty_vars() -> ConfigVars {
    ConfigVars {
        ckb_ws_url: None,
        mqtt_host: None,
        mqtt_port: None,
        mqtt_client_id: None,
        mqtt_username: None,
        mqtt_password: None,
        mqtt_subscribe_topic: None,
        mqtt_publish_topic: None,
        concurrent_requests: None,
        http_address: None,
        http_port: None,
    }
}

#[test]
fn an_empty_environment_gives_the_defaults() {
    let config = Config::from_env(Ok(empty_vars())).unwrap();
    assert_eq!(config.ckb_ws_url, "ws://localhost:8114");
    assert_eq!(config.mqtt_host, "localhost");
    assert_eq!(config.mqtt_port, 1883);
    assert_eq!(config.mqtt_client_id, "ckb-tx-detail-service");
    assert_eq!(config.mqtt_username, None);
    assert_eq!(config.mqtt_password, None);
    assert_eq!(config.mqtt_subscribe_topic, "ckb.transactions.proposed");
    assert_eq!(config.mqtt_publish_topic, "ckb.transactions.detailed.proposed");
    assert_eq!(config.concurrent_requests, 10);
    assert_eq!(config.http_address, "0.0.0.0");
    assert_eq!(config.http_port, 3112);
}

#[test]
fn settings_replace_the_defaults() {
    let vars = ConfigVars {
        ckb_ws_url: Some("ws://node:1".to_string()),
        mqtt_host: Some("broker".to_string()),
        mqtt_port: Some(2),
        mqtt_client_id: Some("id".to_string()),
        mqtt_username: Some("user".to_string()),
        mqtt_password: Some("pass".to_string()),
        mqtt_subscribe_topic: Some("in".to_string()),
        mqtt_publish_topic: Some("out".to_string()),
        concurrent_requests: Some(3),
        http_address: Some("127.0.0.1".to_string()),
        http_port: Some(4),
    };
    let config = Config::from_env(Ok(vars)).unwrap();
    assert_eq!(config.ckb_ws_url, "ws://node:1");
    assert_eq!(config.mqtt_host, "broker");
    assert_eq!(config.mqtt_port, 2);
    assert_eq!(config.mqtt_client_id, "id");
    assert_eq!(config.mqtt_username, Some("user".to_string()));
    assert_eq!(config.mqtt_password, Some("pass".to_string()));
    assert_eq!(config.mqtt_subscribe_topic, "in");
    assert_eq!(config.mqtt_publish_topic, "out");
    assert_eq!(config.concurrent_requests, 3);
    assert_eq!(config.http_address, "127.0.0.1");
    assert_eq!(config.http_port, 4);
}

#[test]
fn an_unreadable_environment_is_a_configuration_error() {
    let error = Config::from_env(Err("invalid digit".to_string())).unwrap_err();
    assert!(matches!(&error, Error::Config(words) if words == "invalid digit"));
    assert_eq!(error.message(), "Configuration error: invalid digit");
}

#[test]
fn every_error_names_its_kind() {
    let words = "w".to_string();
    assert_eq!(Error::WebSocket(words.clone()).message(), "WebSocket error: w");
    assert_eq!(Error::Mqtt(words.clone()).message(), "MQTT error: w");
    assert_eq!(Error::Json(words.clone()).message(), "JSON error: w");
    assert_eq!(
        Error::TxProcessing(words.clone()).message(),
        "Transaction processing error: w"
    );
    assert_eq!(Error::Http(words).message(), "HTTP error: w");
}
