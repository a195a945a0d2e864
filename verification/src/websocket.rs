//! The JSON-RPC client of the CKB node: batches of requests, the messages that
//! answer them, and reconnection.

use crate::enrichment;
use crate::error::Error;
use crate::json;
use crate::json::JsonView;
use serde_json::Value;
use vstd::hash_map::StringHashMap;
use vstd::prelude::*;

pub use crate::types::TransactionWrapper;

verus! {

/// How long to wait before each attempt to reconnect.
pub const RECONNECT_DELAY_SECS: u64 = 5;

/// A JSON-RPC request for a transaction.
pub open spec fn is_request(request: Value, tx_hash: Seq<char>, id: Seq<char>) -> bool {
    match json::json_view(request) {
        JsonView::Object(members) => {
            &&& members.dom() == set!["jsonrpc"@, "method"@, "params"@, "id"@]
            &&& json::json_view(members["jsonrpc"@]) == JsonView::Text("2.0"@)
            &&& json::json_view(members["method"@]) == JsonView::Text("get_transaction"@)
            &&& json::json_view(members["params"@]) matches JsonView::Array(params)
            &&& params.len() == 1
            &&& json::json_view(params[0]) == JsonView::Text(tx_hash)
            &&& json::json_view(members["id"@]) == JsonView::Text(id)
        },
        _ => false,
    }
}

/// Builds the request for one transaction.
pub fn transaction_request(tx_hash: &str, id: &str) -> (res: Value)
    ensures
        is_request(res, tx_hash@, id@),
{
    let mut params: Vec<Value> = Vec::new();
    params.push(json::json_string(tx_hash));
    let mut pairs: Vec<(String, Value)> = Vec::new();
    pairs.push(("jsonrpc".to_string(), json::json_string("2.0")));
    pairs.push(("method".to_string(), json::json_string("get_transaction")));
    pairs.push(("params".to_string(), json::json_array(params)));
    pairs.push(("id".to_string(), json::json_string(id)));
    proof {
        reveal_strlit("jsonrpc");
        reveal_strlit("method");
        reveal_strlit("params");
        reveal_strlit("id");
        assert("jsonrpc"@.len() == 7 && "method"@.len() == 6 && "params"@.len() == 6 && "id"@.len()
            == 2);
        assert("method"@[0] != "params"@[0]);
        assert("jsonrpc"@ != "method"@ && "jsonrpc"@ != "params"@ && "jsonrpc"@ != "id"@);
        assert("method"@ != "params"@ && "method"@ != "id"@ && "params"@ != "id"@);
        let p4 = pairs@;
        let p3 = p4.drop_last();
        let p2 = p3.drop_last();
        let p1 = p2.drop_last();
        assert(json::members_of(p1.drop_last()) == Map::<Seq<char>, Value>::empty());
        assert(json::members_of(p1) == Map::<Seq<char>, Value>::empty().insert(
            "jsonrpc"@,
            p4[0].1,
        ));
        assert(json::members_of(p2) == json::members_of(p1).insert("method"@, p4[1].1));
        assert(json::members_of(p3) == json::members_of(p2).insert("params"@, p4[2].1));
        assert(json::members_of(p4) == json::members_of(p3).insert("id"@, p4[3].1));
        assert(json::members_of(p4).dom() =~= set!["jsonrpc"@, "method"@, "params"@, "id"@]);
    }
    json::json_object(pairs)
}

/// A random UUID in its usual form: five groups of lower case hexadecimal
/// digits, which name version 4 and the standard variant.
pub open spec fn is_random_uuid(s: Seq<char>) -> bool {
    &&& s.len() == 36
    &&& forall|i: int|
        0 <= i < 36 ==> if i == 8 || i == 13 || i == 18 || i == 23 {
            #[trigger] s[i] == '-'
        } else {
            '0' <= s[i] <= '9' || 'a' <= s[i] <= 'f'
        }
    &&& s[14] == '4'
    &&& s[19] == '8' || s[19] == '9' || s[19] == 'a' || s[19] == 'b'
}

/// Whether each of these texts is a random UUID.
pub open spec fn are_random_uuids(ids: Seq<Seq<char>>) -> bool {
    forall|i: int| 0 <= i < ids.len() ==> is_random_uuid(#[trigger] ids[i])
}

/// Calls `uuid::Uuid::new_v4`, and writes the UUID as text.
///
/// The contract claims the form of the text only: the digits are random. The
/// call panics where the operating system gives no random bytes.
#[verifier::external_body]
fn random_uuid() -> (res: String)
    ensures
        is_random_uuid(res@),
{
    uuid::Uuid::new_v4().to_string()
}

/// The requests of a batch: one for each transaction, in order.
pub open spec fn is_batch(
    requests: Seq<Value>,
    tx_hashes: Seq<Seq<char>>,
    ids: Seq<Seq<char>>,
) -> bool {
    &&& requests.len() == tx_hashes.len() == ids.len()
    &&& forall|i: int|
        0 <= i < requests.len() ==> is_request(#[trigger] requests[i], tx_hashes[i], ids[i])
}

/// Whether a text is the JSON of a batch: it is how the requests are written, and
/// they are read back from it.
pub open spec fn is_batch_text(
    text: Seq<char>,
    tx_hashes: Seq<Seq<char>>,
    ids: Seq<Seq<char>>,
) -> bool {
    exists|requests: Seq<Value>| #[trigger]
        is_batch(requests, tx_hashes, ids) && text == json::json_array_text(requests) && (
        json::json_parsed(text) matches Some(message) && json::json_view(message)
            == JsonView::Array(requests))
}

proof fn lemma_a_request_is_plain(request: Value, tx_hash: Seq<char>, id: Seq<char>)
    requires
        is_request(request, tx_hash, id),
    ensures
        json::is_plain(request, 100),
{
    reveal_with_fuel(json::is_plain, 3);
    reveal_strlit("jsonrpc");
    reveal_strlit("method");
    reveal_strlit("params");
    reveal_strlit("id");
    let members = json::json_view(request)->Object_0;
    assert forall|key: Seq<char>| #[trigger] members.contains_key(key) implies json::lower_case(
        key,
    ) && json::is_plain(members[key], 99) by {
        assert(members.dom().contains(key));
        assert(key == "jsonrpc"@ || key == "method"@ || key == "params"@ || key == "id"@);
    }
}

/// Who waits for a reply after more requests: under each identifier, the channel
/// that was registered last.
pub open spec fn registered<S>(
    pending: Map<Seq<char>, S>,
    ids: Seq<Seq<char>>,
    channels: Seq<S>,
) -> Map<Seq<char>, S>
    decreases ids.len(),
{
    if ids.len() == 0 {
        pending
    } else {
        registered(pending, ids.drop_last(), channels).insert(
            ids.last(),
            channels[ids.len() - 1],
        )
    }
}

/// The responses that a message holds: the elements of an array, or the message
/// itself.
pub open spec fn responses(message: Value) -> Seq<Value> {
    match json::json_view(message) {
        JsonView::Array(elements) => elements,
        _ => seq![message],
    }
}

/// The identifier of the request that a response answers, if it is a string.
pub open spec fn response_id(response: Value) -> Option<Seq<char>> {
    match json::member(response, "id"@) {
        Some(id) => match json::json_view(id) {
            JsonView::Text(text) => Some(text),
            _ => None,
        },
        None => None,
    }
}

/// The responses that somebody waits for, in order, each with its identifier.
pub open spec fn awaited<S>(pending: Map<Seq<char>, S>, responses: Seq<Value>) -> Seq<
    (Seq<char>, Value),
>
    decreases responses.len(),
{
    if responses.len() == 0 {
        seq![]
    } else {
        let earlier = awaited(pending, responses.drop_last());
        match response_id(responses.last()) {
            Some(id) => if pending.contains_key(id) {
                earlier.push((id, responses.last()))
            } else {
                earlier
            },
            None => earlier,
        }
    }
}

/// A response for whoever waits under an identifier.
pub struct Delivery {
    pub id: String,
    pub response: Value,
}

/// Deliveries as pairs of identifier and response.
pub open spec fn delivered(deliveries: Seq<Delivery>) -> Seq<(Seq<char>, Value)> {
    deliveries.map_values(|d: Delivery| (d.id@, d.response))
}

fn elements_or_self(message: Value) -> (res: Vec<Value>)
    ensures
        res@ == responses(message),
{
    match message.as_array() {
        Some(elements) => {
            let mut res: Vec<Value> = Vec::new();
            let mut i: usize = 0;
            while i < elements.len()
                invariant
                    i <= elements.len(),
                    res@ == elements@.take(i as int),
                decreases elements.len() - i,
            {
                res.push(elements[i].clone());
                assert(elements@.take(i + 1) =~= elements@.take(i as int).push(elements@[i as int]));
                i = i + 1;
            }
            assert(elements@.take(i as int) =~= elements@);
            res
        },
        None => {
            let mut res: Vec<Value> = Vec::new();
            res.push(message.clone());
            assert(res@ =~= seq![message]);
            res
        },
    }
}

fn id_of(response: &Value) -> (res: Option<&str>)
    ensures
        match res {
            Some(id) => response_id(*response) == Some(id@),
            None => response_id(*response) is None,
        },
{
    match json::get_member(response, "id") {
        Some(id) => id.as_str(),
        None => None,
    }
}

/// What came of waiting for the next message.
pub enum Received {
    /// A message, as text.
    Frame(String),
    /// The connection failed.
    Failed,
    /// The connection was closed.
    Ended,
}

/// What to do after waiting for a message.
pub enum ReceiveAction {
    /// Send these responses to those who wait for them, then wait again.
    Deliver(Vec<Delivery>),
    /// Nobody is waiting any more: drop the channels, wait, and connect anew.
    Reconnect { delay_secs: u64 },
}

/// What to do after an attempt to connect.
pub enum ConnectAction {
    /// Wait for messages on the new connection.
    Resume,
    /// Wait, and try again.
    Retry { delay_secs: u64 },
}

/// What to do after an attempt to reconnect.
pub fn after_connect(connected: bool) -> (res: ConnectAction)
    ensures
        res == if connected {
            ConnectAction::Resume
        } else {
            ConnectAction::Retry { delay_secs: RECONNECT_DELAY_SECS }
        },
{
    if connected {
        ConnectAction::Resume
    } else {
        ConnectAction::Retry { delay_secs: RECONNECT_DELAY_SECS }
    }
}

/// The client's side of the conversation with the node. `S` is whatever a reply
/// is sent through.
#[verifier::reject_recursive_types(S)]
pub struct WsClient<S> {
    pending_requests: StringHashMap<S>,
    ws_url: String,
}

impl<S> WsClient<S> {
    /// Who waits for a reply, by the identifier of the request.
    pub closed spec fn pending(&self) -> Map<Seq<char>, S> {
        self.pending_requests@
    }

    /// The address of the node.
    pub closed spec fn url(&self) -> Seq<char> {
        self.ws_url@
    }

    /// A client of the node at an address; nobody waits for anything yet.
    pub fn new(ws_url: &str) -> (res: Self)
        ensures
            res.pending() == Map::<Seq<char>, S>::empty(),
            res.url() == ws_url@,
    {
        WsClient { pending_requests: StringHashMap::new(), ws_url: ws_url.to_string() }
    }

    /// The address of the node.
    pub fn ws_url(&self) -> (res: &str)
        ensures
            res@ == self.url(),
    {
        self.ws_url.as_str()
    }

    /// The channel that waits under an identifier.
    pub fn channel(&self, id: &str) -> (res: Option<&S>)
        ensures
            match res {
                Some(channel) => self.pending().contains_key(id@) && *channel
                    == self.pending()[id@],
                None => !self.pending().contains_key(id@),
            },
    {
        self.pending_requests.get(id)
    }

    /// Registers a channel for each request of a batch, and writes the batch.
    pub fn request_batch(
        &mut self,
        tx_hashes: &Vec<String>,
        ids: &Vec<String>,
        channels: Vec<S>,
    ) -> (res: Result<String, Error>)
        requires
            tx_hashes@.len() == ids@.len() == channels@.len(),
        ensures
            final(self).pending() == registered(
                old(self).pending(),
                enrichment::texts(ids@),
                channels@,
            ),
            final(self).url() == old(self).url(),
            res is Ok,
            is_batch_text(
                res->Ok_0@,
                enrichment::texts(tx_hashes@),
                enrichment::texts(ids@),
            ),
    {
        let mut requests: Vec<Value> = Vec::new();
        let mut i: usize = 0;
        while i < tx_hashes.len()
            invariant
                i <= tx_hashes.len() == ids.len(),
                requests.len() == i,
                forall|j: int|
                    0 <= j < i ==> is_request(
                        #[trigger] requests@[j],
                        enrichment::texts(tx_hashes@)[j],
                        enrichment::texts(ids@)[j],
                    ),
            decreases tx_hashes.len() - i,
        {
            requests.push(transaction_request(tx_hashes[i].as_str(), ids[i].as_str()));
            i = i + 1;
        }
        let ghost keys = enrichment::texts(ids@);
        let mut k: usize = 0;
        assert(keys.take(0) =~= seq![]);
        for channel in it: channels
            invariant
                k == it.index(),
                it.seq() == channels@,
                channels@.len() == ids@.len(),
                keys == enrichment::texts(ids@),
                self.url() == old(self).url(),
                self.pending() == registered(old(self).pending(), keys.take(k as int), channels@),
        {
            assert(k < ids.len());
            assert(keys.take(k + 1).drop_last() =~= keys.take(k as int));
            self.pending_requests.insert(ids[k].clone(), channel);
            k = k + 1;
        }
        assert(keys.take(k as int) =~= keys);
        proof {
            assert forall|j: int| 0 <= j < requests@.len() implies json::is_plain(
                #[trigger] requests@[j],
                100,
            ) by {
                lemma_a_request_is_plain(
                    requests@[j],
                    enrichment::texts(tx_hashes@)[j],
                    enrichment::texts(ids@)[j],
                );
            }
        }
        match json::render_json_array(&requests) {
            Ok(text) => {
                assert(is_batch(
                    requests@,
                    enrichment::texts(tx_hashes@),
                    enrichment::texts(ids@),
                ));
                Ok(text)
            },
            Err(e) => Err(Error::Json(e)),
        }
    }

    /// Prepares a batch of requests under random identifiers. `None` where there is
    /// nothing to ask for.
    pub fn get_transactions(&mut self, tx_hashes: &Vec<String>, channels: Vec<S>) -> (res: Result<
        Option<String>,
        Error,
    >)
        requires
            tx_hashes@.len() == channels@.len(),
        ensures
            res is Ok,
            final(self).url() == old(self).url(),
            if tx_hashes@.len() == 0 {
                &&& res->Ok_0 is None
                &&& final(self).pending() == old(self).pending()
            } else {
                &&& res->Ok_0 is Some
                &&& exists|ids: Seq<Seq<char>>| #[trigger]
                    are_random_uuids(ids) && is_batch_text(
                        res->Ok_0->0@,
                        enrichment::texts(tx_hashes@),
                        ids,
                    ) && final(self).pending() == registered(old(self).pending(), ids, channels@)
            },
    {
        if tx_hashes.is_empty() {
            return Ok(None);
        }
        let mut ids: Vec<String> = Vec::new();
        let mut i: usize = 0;
        while i < tx_hashes.len()
            invariant
                i <= tx_hashes.len(),
                ids@.len() == i,
                forall|j: int|
                    0 <= j < i ==> is_random_uuid(#[trigger] enrichment::texts(ids@)[j]),
            decreases tx_hashes.len() - i,
        {
            let id = random_uuid();
            let ghost before = enrichment::texts(ids@);
            ids.push(id);
            assert(enrichment::texts(ids@) =~= before.push(id@));
            i = i + 1;
        }
        let ghost keys = enrichment::texts(ids@);
        let batch = self.request_batch(tx_hashes, &ids, channels);
        match batch {
            Ok(text) => {
                assert(are_random_uuids(keys));
                Ok(Some(text))
            },
            Err(e) => Err(e),
        }
    }

    /// Finds the responses in a message that somebody waits for.
    pub fn route_responses(&self, message: Value) -> (res: Vec<Delivery>)
        ensures
            delivered(res@) == awaited(self.pending(), responses(message)),
    {
        let elements = elements_or_self(message);
        let mut res: Vec<Delivery> = Vec::new();
        let mut i: usize = 0;
        assert(delivered(res@) =~= awaited(self.pending(), elements@.take(0)));
        while i < elements.len()
            invariant
                i <= elements.len(),
                delivered(res@) == awaited(self.pending(), elements@.take(i as int)),
            decreases elements.len() - i,
        {
            assert(elements@.take(i + 1).drop_last() =~= elements@.take(i as int));
            let ghost before = delivered(res@);
            match id_of(&elements[i]) {
                Some(id) => {
                    if self.pending_requests.contains_key(id) {
                        res.push(
                            Delivery { id: id.to_string(), response: elements[i].clone() },
                        );
                        assert(delivered(res@) =~= before.push((id@, elements@[i as int])));
                    }
                },
                None => {},
            }
            i = i + 1;
        }
        assert(elements@.take(i as int) =~= elements@);
        res
    }

    /// Finds the responses in the text of a message that somebody waits for. A
    /// text that is no JSON holds none.
    pub fn route_message(&self, text: &str) -> (res: Vec<Delivery>)
        ensures
            delivered(res@) == match json::json_parsed(text@) {
                Some(message) => awaited(self.pending(), responses(message)),
                None => seq![],
            },
    {
        match json::parse_json(text) {
            Some(message) => self.route_responses(message),
            None => {
                let res: Vec<Delivery> = Vec::new();
                assert(delivered(res@) =~= seq![]);
                res
            },
        }
    }

    /// Handles what came of waiting for a message. When the connection is lost,
    /// nobody waits any more: a reply to an earlier request can no longer come.
    pub fn on_received(&mut self, received: Received) -> (res: ReceiveAction)
        ensures
            final(self).url() == old(self).url(),
            match received {
                Received::Frame(text) => {
                    &&& final(self).pending() == old(self).pending()
                    &&& res matches ReceiveAction::Deliver(deliveries)
                    &&& delivered(deliveries@) == match json::json_parsed(text@) {
                        Some(message) => awaited(old(self).pending(), responses(message)),
                        None => seq![],
                    }
                },
                Received::Failed | Received::Ended => {
                    &&& final(self).pending() == Map::<Seq<char>, S>::empty()
                    &&& res == ReceiveAction::Reconnect { delay_secs: RECONNECT_DELAY_SECS }
                },
            },
    {
        match received {
            Received::Frame(text) => ReceiveAction::Deliver(self.route_message(text.as_str())),
            Received::Failed | Received::Ended => {
                self.pending_requests.clear();
                ReceiveAction::Reconnect { delay_secs: RECONNECT_DELAY_SECS }
            },
        }
    }
}

/// Under distinct identifiers each channel of a batch waits for its own reply,
/// and whoever else waits still does.
pub proof fn lemma_each_channel_is_registered<S>(
    pending: Map<Seq<char>, S>,
    ids: Seq<Seq<char>>,
    channels: Seq<S>,
)
    requires
        ids.no_duplicates(),
        ids.len() == channels.len(),
    ensures
        ({
            let after = registered(pending, ids, channels);
            &&& forall|i: int|
                0 <= i < ids.len() ==> after.contains_key(#[trigger] ids[i]) && after[ids[i]]
                    == channels[i]
            &&& forall|id: Seq<char>|
                !ids.contains(id) ==> (#[trigger] after.contains_key(id) <==> pending.contains_key(
                    id,
                )) && after[id] == pending[id]
        }),
{
    lemma_each_channel_is_registered_up_to(pending, ids, channels, ids.len());
    assert(ids.take(ids.len() as int) =~= ids);
}

proof fn lemma_each_channel_is_registered_up_to<S>(
    pending: Map<Seq<char>, S>,
    ids: Seq<Seq<char>>,
    channels: Seq<S>,
    k: nat,
)
    requires
        ids.no_duplicates(),
        ids.len() == channels.len(),
        k <= ids.len(),
    ensures
        ({
            let after = registered(pending, ids.take(k as int), channels);
            &&& forall|i: int|
                0 <= i < k ==> after.contains_key(#[trigger] ids[i]) && after[ids[i]] == channels[i]
            &&& forall|id: Seq<char>|
                !ids.contains(id) ==> (#[trigger] after.contains_key(id) <==> pending.contains_key(
                    id,
                )) && after[id] == pending[id]
        }),
    decreases k,
{
    if k > 0 {
        lemma_each_channel_is_registered_up_to(pending, ids, channels, (k - 1) as nat);
        assert(ids.take(k as int).drop_last() =~= ids.take(k - 1));
        let before = registered(pending, ids.take(k - 1), channels);
        let after = registered(pending, ids.take(k as int), channels);
        assert(after == before.insert(ids[k - 1], channels[k - 1]));
        assert forall|id: Seq<char>| !ids.contains(id) implies (#[trigger] after.contains_key(id)
            <==> pending.contains_key(id)) && after[id] == pending[id] by {
            assert(before.contains_key(id) <==> pending.contains_key(id));
            assert(ids.contains(ids[k - 1]));
        }
    }
}

/// A response is delivered exactly if it is in the message and somebody waits
/// under its identifier.
pub proof fn lemma_delivered_iff_awaited<S>(
    pending: Map<Seq<char>, S>,
    responses: Seq<Value>,
    id: Seq<char>,
    response: Value,
)
    ensures
        awaited(pending, responses).contains((id, response)) <==> {
            &&& responses.contains(response)
            &&& response_id(response) == Some(id)
            &&& pending.contains_key(id)
        },
    decreases responses.len(),
{
    if responses.len() > 0 {
        let rest = responses.drop_last();
        let earlier = awaited(pending, rest);
        let all = awaited(pending, responses);
        lemma_delivered_iff_awaited(pending, rest, id, response);
        if all.contains((id, response)) {
            let i = choose|i: int| 0 <= i < all.len() && all[i] == (id, response);
            if i < earlier.len() {
                assert(earlier[i] == (id, response));
                let j = choose|j: int| 0 <= j < rest.len() && rest[j] == response;
                assert(responses[j] == response);
            } else {
                assert(responses[responses.len() - 1] == response);
            }
        }
        if responses.contains(response) && response_id(response) == Some(id)
            && pending.contains_key(id) {
            let j = choose|j: int| 0 <= j < responses.len() && responses[j] == response;
            if j < rest.len() {
                assert(rest[j] == response);
                let i = choose|i: int| 0 <= i < earlier.len() && earlier[i] == (id, response);
                assert(all[i] == (id, response));
            } else {
                assert(all[earlier.len() as int] == (id, response));
            }
        }
    }
}

/// A reply to a request of a batch reaches the channel that waits for it, wherever
/// it stands in the message, as long as the identifiers are distinct.
pub proof fn lemma_each_reply_reaches_its_channel<S>(
    pending: Map<Seq<char>, S>,
    ids: Seq<Seq<char>>,
    channels: Seq<S>,
    message: Value,
    response: Value,
    i: int,
)
    requires
        ids.no_duplicates(),
        ids.len() == channels.len(),
        0 <= i < ids.len(),
        responses(message).contains(response),
        response_id(response) == Some(ids[i]),
    ensures
        ({
            let after = registered(pending, ids, channels);
            &&& awaited(after, responses(message)).contains((ids[i], response))
            &&& after[ids[i]] == channels[i]
        }),
{
    let after = registered(pending, ids, channels);
    lemma_each_channel_is_registered(pending, ids, channels);
    lemma_delivered_iff_awaited(after, responses(message), ids[i], response);
}

/// Once the connection has been lost, no response is delivered until somebody
/// asks again.
pub proof fn lemma_nothing_is_delivered_after_a_loss<S>(responses: Seq<Value>)
    ensures
        awaited(Map::<Seq<char>, S>::empty(), responses) == Seq::<(Seq<char>, Value)>::empty(),
    decreases responses.len(),
{
    if responses.len() > 0 {
        lemma_nothing_is_delivered_after_a_loss::<S>(responses.drop_last());
    }
}

/// Whoever reads the text of a batch finds one request for each transaction, in
/// order, and under its identifier.
pub proof fn lemma_a_batch_reads_back(
    text: Seq<char>,
    tx_hashes: Seq<Seq<char>>,
    ids: Seq<Seq<char>>,
)
    requires
        is_batch_text(text, tx_hashes, ids),
    ensures
        json::json_parsed(text) matches Some(message) && is_batch(
            responses(message),
            tx_hashes,
            ids,
        ),
{
}

/// A request carries its identifier where the identifier of a response is read.
pub proof fn lemma_a_request_carries_its_id(request: Value, tx_hash: Seq<char>, id: Seq<char>)
    requires
        is_request(request, tx_hash, id),
    ensures
        response_id(request) == Some(id),
{
    match json::json_view(request) {
        JsonView::Object(members) => {
            assert(members.dom().contains("id"@));
        },
        _ => {},
    }
}

} // verus!
