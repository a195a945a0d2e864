//! Laws on the configuration.

use crate::config;
use crate::config::{Config, ConfigVars};
use crate::error::Error;
use vstd::prelude::*;

verus! {

/// Each setting of the environment is taken over as it is.
pub proof fn law_settings_are_taken_over(vars: ConfigVars, res: Result<Config, Error>)
    requires
        call_ensures(Config::from_env, (Ok(vars),), res),
    ensures
        res is Ok,
        vars.ckb_ws_url matches Some(text) ==> res->Ok_0.ckb_ws_url@ == text@,
        vars.mqtt_host matches Some(text) ==> res->Ok_0.mqtt_host@ == text@,
        vars.mqtt_port matches Some(number) ==> res->Ok_0.mqtt_port == number,
        vars.mqtt_client_id matches Some(text) ==> res->Ok_0.mqtt_client_id@ == text@,
        res->Ok_0.mqtt_username == vars.mqtt_username,
        res->Ok_0.mqtt_password == vars.mqtt_password,
        vars.mqtt_subscribe_topic matches Some(text) ==> res->Ok_0.mqtt_subscribe_topic@ == text@,
        vars.mqtt_publish_topic matches Some(text) ==> res->Ok_0.mqtt_publish_topic@ == text@,
        vars.concurrent_requests matches Some(number) ==> res->Ok_0.concurrent_requests == number,
        vars.http_address matches Some(text) ==> res->Ok_0.http_address@ == text@,
        vars.http_port matches Some(number) ==> res->Ok_0.http_port == number,
{
}

/// A setting that the environment lacks has its default.
pub proof fn law_missing_settings_have_defaults(vars: ConfigVars, res: Result<Config, Error>)
    requires
        call_ensures(Config::from_env, (Ok(vars),), res),
    ensures
        res is Ok,
        vars.ckb_ws_url is None ==> res->Ok_0.ckb_ws_url@ == "ws://localhost:8114"@,
        vars.mqtt_host is None ==> res->Ok_0.mqtt_host@ == "localhost"@,
        vars.mqtt_port is None ==> res->Ok_0.mqtt_port == 1883,
        vars.mqtt_client_id is None ==> res->Ok_0.mqtt_client_id@ == "ckb-tx-detail-service"@,
        vars.mqtt_subscribe_topic is None ==> res->Ok_0.mqtt_subscribe_topic@
            == "ckb.transactions.proposed"@,
        vars.mqtt_publish_topic is None ==> res->Ok_0.mqtt_publish_topic@
            == "ckb.transactions.detailed.proposed"@,
        vars.concurrent_requests is None ==> res->Ok_0.concurrent_requests == 10,
        vars.http_address is None ==> res->Ok_0.http_address@ == "0.0.0.0"@,
        vars.http_port is None ==> res->Ok_0.http_port == 3112,
{
}

/// The defaults are those of a configuration from an empty environment.
pub proof fn law_defaults_are_those_of_an_empty_environment(
    vars: ConfigVars,
    res: Result<Config, Error>,
    texts: (String, String, String, String, String, String),
    numbers: (u16, usize, u16),
)
    requires
        call_ensures(Config::from_env, (Ok(vars),), res),
        vars.ckb_ws_url is None,
        vars.mqtt_host is None,
        vars.mqtt_port is None,
        vars.mqtt_client_id is None,
        vars.mqtt_subscribe_topic is None,
        vars.mqtt_publish_topic is None,
        vars.concurrent_requests is None,
        vars.http_address is None,
        vars.http_port is None,
        call_ensures(config::default_ckb_ws_url, (), texts.0),
        call_ensures(config::default_mqtt_host, (), texts.1),
        call_ensures(config::default_mqtt_client_id, (), texts.2),
        call_ensures(config::default_mqtt_subscribe_topic, (), texts.3),
        call_ensures(config::default_mqtt_publish_topic, (), texts.4),
        call_ensures(config::default_http_address, (), texts.5),
        call_ensures(config::default_mqtt_port, (), numbers.0),
        call_ensures(config::default_concurrent_requests, (), numbers.1),
        call_ensures(config::default_http_port, (), numbers.2),
    ensures
        res is Ok,
        res->Ok_0.ckb_ws_url@ == texts.0@,
        res->Ok_0.mqtt_host@ == texts.1@,
        res->Ok_0.mqtt_client_id@ == texts.2@,
        res->Ok_0.mqtt_subscribe_topic@ == texts.3@,
        res->Ok_0.mqtt_publish_topic@ == texts.4@,
        res->Ok_0.http_address@ == texts.5@,
        res->Ok_0.mqtt_port == numbers.0,
        res->Ok_0.concurrent_requests == numbers.1,
        res->Ok_0.http_port == numbers.2,
{
}

/// An environment that cannot be read gives an error with the reason.
pub proof fn law_an_unreadable_environment_is_an_error(
    reason: String,
    res: Result<Config, Error>,
)
    requires
        call_ensures(Config::from_env, (Err(reason),), res),
    ensures
        res matches Err(Error::Config(words)) && words@ == reason@,
{
}

} // verus!
