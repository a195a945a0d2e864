//! Configuration.

use crate::error::{Error, ErrorView};
use vstd::prelude::*;

verus! {

/// The configuration of the service.
#[derive(Debug, Clone)]
pub struct Config {
    pub ckb_ws_url: String,
    pub mqtt_host: String,
    pub mqtt_port: u16,
    pub mqtt_client_id: String,
    pub mqtt_username: Option<String>,
    pub mqtt_password: Option<String>,
    pub mqtt_subscribe_topic: String,
    pub mqtt_publish_topic: String,
    pub concurrent_requests: usize,
    pub http_address: String,
    pub http_port: u16,
}

/// The settings that the environment holds; `None` where it holds none.
#[derive(Debug)]
pub struct ConfigVars {
    pub ckb_ws_url: Option<String>,
    pub mqtt_host: Option<String>,
    pub mqtt_port: Option<u16>,
    pub mqtt_client_id: Option<String>,
    pub mqtt_username: Option<String>,
    pub mqtt_password: Option<String>,
    pub mqtt_subscribe_topic: Option<String>,
    pub mqtt_publish_topic: Option<String>,
    pub concurrent_requests: Option<usize>,
    pub http_address: Option<String>,
    pub http_port: Option<u16>,
}

/// The text of a setting, or the default where there is none.
pub open spec fn text_or(setting: Option<String>, default: Seq<char>) -> Seq<char> {
    match setting {
        Some(text) => text@,
        None => default,
    }
}

/// The number of a setting, or the default where there is none.
pub open spec fn number_or(setting: Option<u16>, default: u16) -> u16 {
    match setting {
        Some(number) => number,
        None => default,
    }
}

/// Whether a configuration is the settings of the environment, completed by the
/// defaults.
pub open spec fn completes(config: Config, vars: ConfigVars) -> bool {
    &&& config.ckb_ws_url@ == text_or(vars.ckb_ws_url, "ws://localhost:8114"@)
    &&& config.mqtt_host@ == text_or(vars.mqtt_host, "localhost"@)
    &&& config.mqtt_port == number_or(vars.mqtt_port, 1883)
    &&& config.mqtt_client_id@ == text_or(vars.mqtt_client_id, "ckb-tx-detail-service"@)
    &&& config.mqtt_username == vars.mqtt_username
    &&& config.mqtt_password == vars.mqtt_password
    &&& config.mqtt_subscribe_topic@ == text_or(
        vars.mqtt_subscribe_topic,
        "ckb.transactions.proposed"@,
    )
    &&& config.mqtt_publish_topic@ == text_or(
        vars.mqtt_publish_topic,
        "ckb.transactions.detailed.proposed"@,
    )
    &&& config.concurrent_requests == match vars.concurrent_requests {
        Some(number) => number,
        None => 10,
    }
    &&& config.http_address@ == text_or(vars.http_address, "0.0.0.0"@)
    &&& config.http_port == number_or(vars.http_port, 3112)
}

impl Config {
    /// The configuration that the environment asks for, given what reading its
    /// settings gave.
    pub fn from_env(vars: Result<ConfigVars, String>) -> (res: Result<Self, Error>)
        ensures
            match vars {
                Ok(vars) => res is Ok && completes(res->Ok_0, vars),
                Err(reason) => res is Err && res->Err_0@ == ErrorView::Config(reason@),
            },
    {
        match vars {
            Ok(vars) => Ok(
                Config {
                    ckb_ws_url: match vars.ckb_ws_url {
                        Some(text) => text,
                        None => default_ckb_ws_url(),
                    },
                    mqtt_host: match vars.mqtt_host {
                        Some(text) => text,
                        None => default_mqtt_host(),
                    },
                    mqtt_port: match vars.mqtt_port {
                        Some(number) => number,
                        None => default_mqtt_port(),
                    },
                    mqtt_client_id: match vars.mqtt_client_id {
                        Some(text) => text,
                        None => default_mqtt_client_id(),
                    },
                    mqtt_username: vars.mqtt_username,
                    mqtt_password: vars.mqtt_password,
                    mqtt_subscribe_topic: match vars.mqtt_subscribe_topic {
                        Some(text) => text,
                        None => default_mqtt_subscribe_topic(),
                    },
                    mqtt_publish_topic: match vars.mqtt_publish_topic {
                        Some(text) => text,
                        None => default_mqtt_publish_topic(),
                    },
                    concurrent_requests: match vars.concurrent_requests {
                        Some(number) => number,
                        None => default_concurrent_requests(),
                    },
                    http_address: match vars.http_address {
                        Some(text) => text,
                        None => default_http_address(),
                    },
                    http_port: match vars.http_port {
                        Some(number) => number,
                        None => default_http_port(),
                    },
                },
            ),
            Err(reason) => Err(Error::Config(reason)),
        }
    }
}

pub fn default_ckb_ws_url() -> (res: String)
    ensures
        res@ == "ws://localhost:8114"@,
{
    "ws://localhost:8114".to_string()
}

pub fn default_mqtt_host() -> (res: String)
    ensures
        res@ == "localhost"@,
{
    "localhost".to_string()
}

pub fn default_mqtt_port() -> (res: u16)
    ensures
        res == 1883,
{
    1883
}

pub fn default_mqtt_client_id() -> (res: String)
    ensures
        res@ == "ckb-tx-detail-service"@,
{
    "ckb-tx-detail-service".to_string()
}

pub fn default_mqtt_subscribe_topic() -> (res: String)
    ensures
        res@ == "ckb.transactions.proposed"@,
{
    "ckb.transactions.proposed".to_string()
}

pub fn default_mqtt_publish_topic() -> (res: String)
    ensures
        res@ == "ckb.transactions.detailed.proposed"@,
{
    "ckb.transactions.detailed.proposed".to_string()
}

pub fn default_concurrent_requests() -> (res: usize)
    ensures
        res == 10,
{
    10
}

pub fn default_http_address() -> (res: String)
    ensures
        res@ == "0.0.0.0"@,
{
    "0.0.0.0".to_string()
}

pub fn default_http_port() -> (res: u16)
    ensures
        res == 3112,
{
    3112
}

} // verus!
