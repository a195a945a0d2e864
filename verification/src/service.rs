//! The MQTT side of the service: connecting, reconnecting, and turning the
//! transactions that arrive into detailed ones.

use crate::config::Config;
use crate::enrichment;
use crate::enrichment::EnrichmentStep;
use crate::error::{Error, ErrorView};
use crate::replies;
use crate::replies::ReplyOutcome;
use crate::types::{Input, Transaction};
use rumqttc::MqttOptions;
use vstd::arithmetic::power2::{lemma2_to64, pow2};
use vstd::prelude::*;

verus! {

/// How many requests the MQTT client queues.
pub const REQUEST_CAPACITY: usize = 10;

/// How often the MQTT client shows the broker that it is alive.
pub const KEEP_ALIVE_SECS: u64 = 60;

/// The number of failures in a row after which the delay no longer grows.
pub const MAX_DOUBLINGS: u32 = 6;

#[verifier::external_type_specification]
#[verifier::external_body]
pub struct ExMqttOptions(rumqttc::MqttOptions);

/// How the MQTT client connects, as far as the service decides it.
pub struct MqttSettings {
    pub client_id: Seq<char>,
    pub host: Seq<char>,
    pub port: u16,
    pub credentials: Option<(Seq<char>, Seq<char>)>,
    pub keep_alive_secs: nat,
    pub clean_session: bool,
}

/// The settings that an `rumqttc::MqttOptions` holds.
pub uninterp spec fn mqtt_settings(options: MqttOptions) -> MqttSettings;

/// Calls `rumqttc::MqttOptions::new`.
///
/// The contract claims that the result holds the identifier, host and port that
/// are given, no credentials, a keep alive of a minute and a clean session.
#[verifier::external_body]
fn new_mqtt_options(client_id: &str, host: &str, port: u16) -> (res: MqttOptions)
    ensures
        mqtt_settings(res) == (MqttSettings {
            client_id: client_id@,
            host: host@,
            port,
            credentials: None,
            keep_alive_secs: 60,
            clean_session: true,
        }),
{
    MqttOptions::new(client_id, host, port)
}

/// Calls `rumqttc::MqttOptions::set_credentials`.
///
/// The contract claims that it sets the user name and password, and nothing else.
#[verifier::external_body]
fn set_credentials(options: &mut MqttOptions, username: &str, password: &str)
    ensures
        mqtt_settings(*final(options)) == (MqttSettings {
            credentials: Some((username@, password@)),
            ..mqtt_settings(*old(options))
        }),
{
    options.set_credentials(username, password);
}

/// Calls `rumqttc::MqttOptions::set_keep_alive`.
///
/// The contract claims that it sets the keep alive, and nothing else. The call
/// panics on a fraction of a second, which whole seconds never are.
#[verifier::external_body]
fn set_keep_alive(options: &mut MqttOptions, secs: u64)
    ensures
        mqtt_settings(*final(options)) == (MqttSettings {
            keep_alive_secs: secs as nat,
            ..mqtt_settings(*old(options))
        }),
{
    options.set_keep_alive(std::time::Duration::from_secs(secs));
}

/// Calls `rumqttc::MqttOptions::set_clean_session`.
///
/// The contract claims that it sets whether the session is clean, and nothing
/// else. The call panics where a client without an identifier asks for a session
/// that is not clean.
#[verifier::external_body]
fn set_clean_session(options: &mut MqttOptions, clean: bool)
    requires
        clean || mqtt_settings(*old(options)).client_id.len() > 0,
    ensures
        mqtt_settings(*final(options)) == (MqttSettings {
            clean_session: clean,
            ..mqtt_settings(*old(options))
        }),
{
    options.set_clean_session(clean);
}

/// The credentials of a configuration: a user name and a password, or nothing
/// where either is missing.
pub open spec fn credentials(config: Config) -> Option<(Seq<char>, Seq<char>)> {
    match (config.mqtt_username, config.mqtt_password) {
        (Some(username), Some(password)) => Some((username@, password@)),
        _ => None,
    }
}

/// The settings under which the MQTT client connects.
pub fn mqtt_options(config: &Config) -> (res: MqttOptions)
    ensures
        mqtt_settings(res) == (MqttSettings {
            client_id: config.mqtt_client_id@,
            host: config.mqtt_host@,
            port: config.mqtt_port,
            credentials: credentials(*config),
            keep_alive_secs: KEEP_ALIVE_SECS as nat,
            clean_session: true,
        }),
{
    let mut options = new_mqtt_options(
        config.mqtt_client_id.as_str(),
        config.mqtt_host.as_str(),
        config.mqtt_port,
    );
    match (config.mqtt_username.as_ref(), config.mqtt_password.as_ref()) {
        (Some(username), Some(password)) => {
            set_credentials(&mut options, username.as_str(), password.as_str());
        },
        _ => {},
    }
    set_keep_alive(&mut options, KEEP_ALIVE_SECS);
    set_clean_session(&mut options, true);
    options
}

/// How surely a message is delivered.
#[derive(Debug, Clone, Copy, PartialEq, Eq, Structural)]
pub enum QoS {
    AtMostOnce,
    AtLeastOnce,
    ExactlyOnce,
}

/// What the MQTT client reports.
pub enum MqttEvent {
    /// The broker accepted the connection.
    ConnAck,
    /// A message arrived.
    Publish { topic: String, payload: Vec<u8> },
    /// The broker ended the connection.
    Disconnect,
    /// Anything else.
    Other,
}

/// What to do about what the MQTT client reports.
pub enum MqttAction {
    /// Subscribe to a topic.
    Subscribe { topic: String, qos: QoS },
    /// Once there is a free place, read the payload as a transaction and call
    /// `receive_message`.
    Process { topic: String, payload: Vec<u8> },
    /// The client reconnects by itself.
    AwaitReconnect,
    /// Nothing.
    Ignore,
}

/// What came of one round of the service.
pub enum RoundEvent {
    /// The MQTT client reported something, and it was dealt with.
    Handled,
    /// The MQTT client reported something, and dealing with it failed.
    HandlerFailed(Error),
    /// The connection to the broker was lost.
    ConnectionLost,
}

/// What to do after one round of the service.
pub enum RoundAction {
    /// Go on; `reconnected` tells whether the connection had been lost before.
    Continue { reconnected: bool },
    /// Give up.
    Stop(Error),
}

/// The number of seconds to wait after a number of failures in a row: 2, 4, 8,
/// 16, 32, then always 64.
pub open spec fn backoff_secs(failures: nat) -> nat {
    pow2(
        if failures < MAX_DOUBLINGS {
            failures
        } else {
            MAX_DOUBLINGS as nat
        },
    )
}

/// The service between two rounds.
pub struct TxDetailService {
    config: Config,
    reconnect_attempts: u32,
}

impl TxDetailService {
    /// The configuration.
    pub closed spec fn configuration(&self) -> Config {
        self.config
    }

    /// How often in a row the connection to the broker failed.
    pub closed spec fn failures(&self) -> nat {
        self.reconnect_attempts as nat
    }

    /// A service that has not failed yet.
    pub fn new(config: Config) -> (res: Self)
        ensures
            res.configuration() == config,
            res.failures() == 0,
    {
        TxDetailService { config, reconnect_attempts: 0 }
    }

    /// The configuration.
    pub fn config(&self) -> (res: &Config)
        ensures
            *res == self.configuration(),
    {
        &self.config
    }

    /// How often in a row the connection to the broker failed.
    pub fn reconnect_attempts(&self) -> (res: u32)
        ensures
            res == self.failures(),
    {
        self.reconnect_attempts
    }

    /// How long to wait before the next round; `None` where the connection is fine.
    pub fn delay_secs(&self) -> (res: Option<u64>)
        ensures
            if self.failures() == 0 {
                res is None
            } else {
                res is Some && res->0 == backoff_secs(self.failures())
            },
    {
        if self.reconnect_attempts == 0 {
            return None;
        }
        proof {
            lemma2_to64();
        }
        let secs: u64 = match self.reconnect_attempts {
            1 => 2,
            2 => 4,
            3 => 8,
            4 => 16,
            5 => 32,
            _ => 64,
        };
        Some(secs)
    }

    /// Takes note of what came of a round. Whatever the client reports resets the
    /// count of failures, once it has been dealt with.
    pub fn after_round(&mut self, event: RoundEvent) -> (res: RoundAction)
        requires
            event is ConnectionLost ==> old(self).failures() < u32::MAX,
        ensures
            final(self).configuration() == old(self).configuration(),
            match event {
                RoundEvent::Handled => {
                    &&& final(self).failures() == 0
                    &&& res == RoundAction::Continue { reconnected: old(self).failures() > 0 }
                },
                RoundEvent::HandlerFailed(e) => {
                    &&& final(self).failures() == old(self).failures()
                    &&& res == RoundAction::Stop(e)
                },
                RoundEvent::ConnectionLost => {
                    &&& final(self).failures() == old(self).failures() + 1
                    &&& res == RoundAction::Continue { reconnected: false }
                },
            },
    {
        match event {
            RoundEvent::Handled => {
                let reconnected = self.reconnect_attempts > 0;
                self.reconnect_attempts = 0;
                RoundAction::Continue { reconnected }
            },
            RoundEvent::HandlerFailed(e) => RoundAction::Stop(e),
            RoundEvent::ConnectionLost => {
                self.reconnect_attempts = self.reconnect_attempts + 1;
                RoundAction::Continue { reconnected: false }
            },
        }
    }

    /// Decides what to do about what the MQTT client reports.
    pub fn handle_mqtt_event(&self, event: MqttEvent) -> (res: MqttAction)
        ensures
            match event {
                MqttEvent::ConnAck => res == (MqttAction::Subscribe {
                    topic: self.configuration().mqtt_subscribe_topic,
                    qos: QoS::AtLeastOnce,
                }),
                MqttEvent::Publish { topic, payload } => res == (MqttAction::Process {
                    topic,
                    payload,
                }),
                MqttEvent::Disconnect => res == MqttAction::AwaitReconnect,
                MqttEvent::Other => res == MqttAction::Ignore,
            },
    {
        match event {
            MqttEvent::ConnAck => MqttAction::Subscribe {
                topic: self.config.mqtt_subscribe_topic.clone(),
                qos: QoS::AtLeastOnce,
            },
            MqttEvent::Publish { topic, payload } => MqttAction::Process { topic, payload },
            MqttEvent::Disconnect => MqttAction::AwaitReconnect,
            MqttEvent::Other => MqttAction::Ignore,
        }
    }
}

/// A detailed transaction on its way to the broker.
pub struct Publication {
    pub topic: String,
    pub qos: QoS,
    pub retain: bool,
    pub tx: Transaction,
}

/// What to do next with a message.
pub enum MessageStep {
    /// Ask the node for these transactions, then call `process_transaction`.
    Fetch { tx: Transaction, tx_hashes: Vec<String> },
    /// Publish a detailed transaction.
    Publish(Publication),
    /// The message is no transaction: drop it.
    Discard,
    /// The transaction cannot be enriched: report the error, and drop it.
    Failed(Error),
}

/// Whether a step publishes a transaction that has these inputs, and is otherwise
/// this one.
pub open spec fn publishes(
    tx: Transaction,
    inputs: Seq<Input>,
    topic: Seq<char>,
    step: MessageStep,
) -> bool {
    step matches MessageStep::Publish(publication) && {
        &&& publication.topic@ == topic
        &&& publication.qos == QoS::AtLeastOnce
        &&& !publication.retain
        &&& enrichment::with_inputs(tx, inputs, publication.tx)
    }
}

fn publish(tx: Transaction, publish_topic: &str) -> (res: MessageStep)
    ensures
        publishes(tx, tx.inputs@, publish_topic@, res),
{
    MessageStep::Publish(
        Publication {
            topic: publish_topic.to_string(),
            qos: QoS::AtLeastOnce,
            retain: false,
            tx,
        },
    )
}

/// Begins to process a message, given the transaction that its payload holds, if
/// it holds one.
pub fn receive_message(parsed: Option<Transaction>, publish_topic: &str) -> (res: MessageStep)
    ensures
        match parsed {
            Some(tx) => if tx.inputs@.len() == 0 {
                publishes(tx, tx.inputs@, publish_topic@, res)
            } else {
                res matches MessageStep::Fetch { tx: kept, tx_hashes } && kept == tx
                    && enrichment::texts(tx_hashes@) == enrichment::distinct(
                    enrichment::spent_hashes(tx.inputs@),
                )
            },
            None => res == MessageStep::Discard,
        },
{
    match parsed {
        Some(tx) => match enrichment::start_enrichment(tx) {
            EnrichmentStep::Fetch { tx, tx_hashes } => MessageStep::Fetch { tx, tx_hashes },
            EnrichmentStep::Finished(tx) => publish(tx, publish_topic),
        },
        None => MessageStep::Discard,
    }
}

/// Whether a step is the right one after the node was asked for the transactions
/// that the inputs of a transaction spend from.
pub open spec fn concludes_message(
    tx: Transaction,
    tx_hashes: Seq<Seq<char>>,
    fetched: Result<Vec<Transaction>, Error>,
    topic: Seq<char>,
    step: MessageStep,
) -> bool {
    match fetched {
        Ok(source_txs) => match enrichment::all_filled(
            tx.inputs@,
            enrichment::source_map(tx_hashes, source_txs@),
        ) {
            Ok(inputs) => publishes(tx, inputs, topic, step),
            Err(e) => step matches MessageStep::Failed(error) && error@ == e,
        },
        Err(e) => step == MessageStep::Failed(e),
    }
}

/// Enriches the transaction of a message with what came of asking the node.
pub fn process_transaction(
    tx: Transaction,
    tx_hashes: &Vec<String>,
    fetched: Result<Vec<Transaction>, Error>,
    publish_topic: &str,
) -> (res: MessageStep)
    ensures
        concludes_message(tx, enrichment::texts(tx_hashes@), fetched, publish_topic@, res),
{
    match enrichment::enrich_transaction(tx, tx_hashes, fetched) {
        Ok(detailed_tx) => publish(detailed_tx, publish_topic),
        Err(e) => MessageStep::Failed(e),
    }
}

/// The delay doubles with each failure in a row up to 64 seconds, and never grows
/// beyond.
pub proof fn lemma_backoff(failures: nat)
    requires
        failures > 0,
    ensures
        2 <= backoff_secs(failures) <= 64,
        failures < MAX_DOUBLINGS ==> backoff_secs(failures + 1) == 2 * backoff_secs(failures),
        failures >= MAX_DOUBLINGS ==> backoff_secs(failures) == 64,
        backoff_secs(1) == 2,
{
    lemma2_to64();
    if failures < MAX_DOUBLINGS {
        assert(failures == 1 || failures == 2 || failures == 3 || failures == 4 || failures == 5);
    }
}

/// Every transaction that is published holds the details of all its inputs.
pub proof fn lemma_published_transactions_are_detailed(
    tx: Transaction,
    tx_hashes: Seq<Seq<char>>,
    fetched: Result<Vec<Transaction>, Error>,
    topic: Seq<char>,
    step: MessageStep,
)
    requires
        concludes_message(tx, tx_hashes, fetched, topic, step),
    ensures
        step matches MessageStep::Publish(publication) ==> forall|i: int|
            0 <= i < publication.tx.inputs@.len() ==> enrichment::is_detailed(
                #[trigger] publication.tx.inputs@[i],
            ),
{
    if let Ok(source_txs) = fetched {
        enrichment::lemma_enriched_inputs_are_detailed(
            tx.inputs@,
            enrichment::source_map(tx_hashes, source_txs@),
        );
    }
}

/// When the node sends every transaction that it is asked for, and each input of a
/// transaction names an output that exists, the transaction is published with
/// what those outputs hold.
pub proof fn lemma_a_complete_transaction_is_published(
    tx: Transaction,
    node: Map<Seq<char>, Transaction>,
    outcomes: Seq<ReplyOutcome>,
    fetched: Result<Vec<Transaction>, Error>,
    topic: Seq<char>,
    step: MessageStep,
)
    requires
        ({
            let tx_hashes = enrichment::distinct(enrichment::spent_hashes(tx.inputs@));
            &&& outcomes.len() == tx_hashes.len()
            &&& forall|i: int|
                #![trigger tx_hashes[i]]
                0 <= i < tx_hashes.len() ==> node.contains_key(tx_hashes[i]) && outcomes[i] == Ok::<
                    Option<Transaction>,
                    ErrorView,
                >(Some(node[tx_hashes[i]]))
            &&& concludes_message(tx, tx_hashes, fetched, topic, step)
        }),
        match replies::collected(outcomes) {
            Ok(answers) => fetched is Ok && fetched->Ok_0@ == answers,
            Err(e) => fetched is Err && fetched->Err_0@ == e,
        },
        forall|i: int|
            0 <= i < tx.inputs@.len() ==> enrichment::spent(
                #[trigger] tx.inputs@[i],
                node,
            ) is Some,
    ensures
        publishes(
            tx,
            tx.inputs@.map_values(
                |input: Input| enrichment::detailed(input, enrichment::spent(input, node)->0),
            ),
            topic,
            step,
        ),
{
    let tx_hashes = enrichment::distinct(enrichment::spent_hashes(tx.inputs@));
    let answers = fetched->Ok_0@;
    replies::lemma_complete_replies_answer_in_order(node, tx_hashes, outcomes);
    enrichment::lemma_enrichment_copies_the_spent_outputs(tx.inputs@, node, answers);
    let filled = enrichment::all_filled(
        tx.inputs@,
        enrichment::source_map(tx_hashes, answers),
    )->Ok_0;
    assert(filled =~= tx.inputs@.map_values(
        |input: Input| enrichment::detailed(input, enrichment::spent(input, node)->0),
    ));
}

} // verus!
