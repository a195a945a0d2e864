//! Laws on the MQTT side of the service.

use crate::config::Config;
use crate::enrichment;
use crate::enrichment::EnrichmentStep;
use crate::error::Error;
use crate::service;
use crate::service::{
    MessageStep, MqttAction, MqttEvent, QoS, RoundAction, RoundEvent, TxDetailService,
};
use crate::types::Transaction;
use rumqttc::MqttOptions;
use vstd::arithmetic::power2::{lemma2_to64, pow2};
use vstd::prelude::*;

verus! {

/// The client connects to the configured broker under the configured identifier,
/// with a clean session and a minute's keep alive, and with credentials exactly if
/// both parts of them are configured.
pub proof fn law_the_client_connects_as_configured(config: &Config, res: MqttOptions)
    requires
        call_ensures(service::mqtt_options, (config,), res),
    ensures
        service::mqtt_settings(res).client_id == config.mqtt_client_id@,
        service::mqtt_settings(res).host == config.mqtt_host@,
        service::mqtt_settings(res).port == config.mqtt_port,
        service::mqtt_settings(res).keep_alive_secs == 60,
        service::mqtt_settings(res).clean_session,
        config.mqtt_username is Some && config.mqtt_password is Some
            ==> service::mqtt_settings(res).credentials == Some(
            (config.mqtt_username->0@, config.mqtt_password->0@),
        ),
        config.mqtt_username is None || config.mqtt_password is None
            ==> service::mqtt_settings(res).credentials is None,
{
}

/// The client queues ten requests.
pub proof fn law_the_client_queues_ten_requests()
    ensures
        service::REQUEST_CAPACITY == 10,
{
}

/// A new service has its configuration, has not failed, and does not wait.
pub proof fn law_a_new_service_has_not_failed(
    config: Config,
    service: TxDetailService,
    kept: &Config,
    attempts: u32,
    delay: Option<u64>,
)
    requires
        call_ensures(TxDetailService::new, (config,), service),
        call_ensures(TxDetailService::config, (&service,), kept),
        call_ensures(TxDetailService::reconnect_attempts, (&service,), attempts),
        call_ensures(TxDetailService::delay_secs, (&service,), delay),
    ensures
        *kept == config,
        attempts == 0,
        delay is None,
{
}

/// The delay after a number of failures in a row is that power of two, in seconds,
/// but never more than 64. Without a failure there is no delay.
pub proof fn law_the_delay_doubles_up_to_a_minute(
    service: &TxDetailService,
    attempts: u32,
    delay: Option<u64>,
)
    requires
        call_ensures(TxDetailService::reconnect_attempts, (service,), attempts),
        call_ensures(TxDetailService::delay_secs, (service,), delay),
    ensures
        attempts == 0 ==> delay is None,
        1 <= attempts <= 6 ==> (delay matches Some(secs) && secs == pow2(attempts as nat)),
        attempts >= 6 ==> delay == Some(64u64),
{
    lemma2_to64();
}

/// An event that was dealt with resets the count of failures, a lost connection
/// adds one, and a handler's error stops the service. The configuration stays.
pub proof fn law_rounds_count_failures()
    ensures
        forall|service: &mut TxDetailService, event: RoundEvent, res: RoundAction| #[trigger]
            call_ensures(TxDetailService::after_round, (service, event), res) ==> {
                &&& final(service).configuration() == service.configuration()
                &&& event is Handled ==> final(service).failures() == 0
                &&& event is Handled && service.failures() == 0 ==> res == RoundAction::Continue {
                    reconnected: false,
                }
                &&& event is Handled && service.failures() > 0 ==> res == RoundAction::Continue {
                    reconnected: true,
                }
                &&& event is ConnectionLost ==> final(service).failures() == service.failures() + 1
                &&& event is ConnectionLost ==> res == RoundAction::Continue { reconnected: false }
                &&& event matches RoundEvent::HandlerFailed(e) ==> res == RoundAction::Stop(e)
                    && final(service).failures() == service.failures()
            },
{
}

/// The count of failures and the configuration can be looked up.
pub proof fn law_the_service_can_be_observed(
    service: &TxDetailService,
    attempts: u32,
    config: &Config,
)
    requires
        call_ensures(TxDetailService::reconnect_attempts, (service,), attempts),
        call_ensures(TxDetailService::config, (service,), config),
    ensures
        attempts == service.failures(),
        *config == service.configuration(),
{
}

/// A new connection is subscribed to the configured topic, each message is
/// processed as it came, and nothing else is acted upon.
pub proof fn law_events_are_acted_upon(
    service: &TxDetailService,
    config: &Config,
    event: MqttEvent,
    res: MqttAction,
)
    requires
        call_ensures(TxDetailService::config, (service,), config),
        call_ensures(TxDetailService::handle_mqtt_event, (service, event), res),
    ensures
        match event {
            MqttEvent::ConnAck => res matches MqttAction::Subscribe { topic, qos } && topic@
                == config.mqtt_subscribe_topic@ && qos == QoS::AtLeastOnce,
            MqttEvent::Publish { topic: from, payload: bytes } => res matches MqttAction::Process {
                topic,
                payload,
            } && topic@ == from@ && payload@ == bytes@,
            MqttEvent::Disconnect => res is AwaitReconnect,
            MqttEvent::Other => res is Ignore,
        },
{
}

/// A message that is no transaction is dropped. A transaction without inputs is
/// published as it is. Any other is kept as it is until the node has been asked for
/// its sources.
pub proof fn law_a_message_is_received(
    parsed: Option<Transaction>,
    publish_topic: &str,
    step: MessageStep,
    enrichment_step: EnrichmentStep,
)
    requires
        call_ensures(service::receive_message, (parsed, publish_topic), step),
        parsed is Some ==> call_ensures(
            enrichment::start_enrichment,
            (parsed->0,),
            enrichment_step,
        ),
    ensures
        parsed is None ==> step is Discard,
        parsed is Some && parsed->0.inputs@.len() == 0 ==> {
            let published = step->Publish_0;
            &&& step is Publish
            &&& published.topic@ == publish_topic@
            &&& published.qos == QoS::AtLeastOnce
            &&& !published.retain
            &&& published.tx.inputs@.len() == 0
            &&& published.tx.hash == parsed->0.hash
            &&& published.tx.outputs == parsed->0.outputs
            &&& published.tx.cell_deps == parsed->0.cell_deps
            &&& published.tx.header_deps == parsed->0.header_deps
            &&& published.tx.outputs_data == parsed->0.outputs_data
            &&& published.tx.version == parsed->0.version
            &&& published.tx.witnesses == parsed->0.witnesses
        },
        parsed is Some && parsed->0.inputs@.len() > 0 ==> {
            &&& step is Fetch
            &&& step->tx == parsed->0
            &&& step->tx_hashes@.len() == enrichment_step->Fetch_tx_hashes@.len()
            &&& forall|k: int|
                0 <= k < step->tx_hashes@.len() ==> (#[trigger] step->tx_hashes@[k])@
                    == enrichment_step->Fetch_tx_hashes@[k]@
        },
{
    if parsed is Some && parsed->0.inputs@.len() > 0 {
        let asked = step->tx_hashes@;
        let sources = enrichment_step->Fetch_tx_hashes@;
        assert(enrichment::texts(asked) == enrichment::texts(sources));
        assert(enrichment::texts(asked).len() == asked.len());
        assert(enrichment::texts(sources).len() == sources.len());
        assert forall|k: int| 0 <= k < asked.len() implies (#[trigger] asked[k])@
            == sources[k]@ by {
            assert(enrichment::texts(asked)[k] == asked[k]@);
            assert(enrichment::texts(sources)[k] == sources[k]@);
        }
    }
}

/// Whatever is published for a transaction is the enriched transaction: its inputs
/// are the enriched ones, and all else is as it came. It goes to the topic at least
/// once and is not retained. A transaction that cannot be enriched is not published,
/// and the error is handed on.
pub proof fn law_the_enriched_transaction_is_published(
    tx: Transaction,
    tx_hashes: &Vec<String>,
    fetched: Result<Vec<Transaction>, Error>,
    publish_topic: &str,
    step: MessageStep,
    enriched: Result<Transaction, Error>,
)
    requires
        call_ensures(
            service::process_transaction,
            (tx, tx_hashes, fetched, publish_topic),
            step,
        ),
        call_ensures(enrichment::enrich_transaction, (tx, tx_hashes, fetched), enriched),
    ensures
        enriched is Ok ==> {
            let published = step->Publish_0;
            &&& step is Publish
            &&& published.topic@ == publish_topic@
            &&& published.qos == QoS::AtLeastOnce
            &&& !published.retain
            &&& published.tx.inputs@ == enriched->Ok_0.inputs@
            &&& published.tx.hash == tx.hash
            &&& published.tx.outputs == tx.outputs
            &&& published.tx.cell_deps == tx.cell_deps
            &&& published.tx.header_deps == tx.header_deps
            &&& published.tx.outputs_data == tx.outputs_data
            &&& published.tx.version == tx.version
            &&& published.tx.witnesses == tx.witnesses
        },
        enriched is Err ==> match (enriched->Err_0, step) {
            (Error::TxProcessing(expected), MessageStep::Failed(Error::TxProcessing(words))) =>
            words@ == expected@,
            (expected, MessageStep::Failed(error)) => error == expected,
            _ => false,
        },
{
    if fetched is Ok {
        let sources = enrichment::source_map(enrichment::texts(tx_hashes@), fetched->Ok_0@);
        enrichment::lemma_first_failure(tx.inputs@, sources);
    }
}

} // verus!
