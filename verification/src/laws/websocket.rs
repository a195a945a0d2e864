//! Laws on the conversation with the node.

use crate::enrichment;
use crate::error::Error;
use crate::json;
use crate::json::JsonView;
use crate::websocket;
use crate::websocket::{ConnectAction, Delivery, ReceiveAction, Received, WsClient};
use serde_json::Value;
use vstd::prelude::*;

verus! {

/// A request is a JSON-RPC 2.0 call of `get_transaction` with the hash as its only
/// parameter, under the identifier that was given.
pub proof fn law_a_request_calls_get_transaction(tx_hash: &str, id: &str, res: Value)
    requires
        call_ensures(websocket::transaction_request, (tx_hash, id), res),
    ensures
        ({
            let members = json::json_view(res)->Object_0;
            &&& json::json_view(res) is Object
            &&& members.dom() == set!["jsonrpc"@, "method"@, "params"@, "id"@]
            &&& json::json_view(members["jsonrpc"@]) == JsonView::Text("2.0"@)
            &&& json::json_view(members["method"@]) == JsonView::Text("get_transaction"@)
            &&& json::json_view(members["params"@]) is Array
            &&& json::json_view(members["params"@])->Array_0.len() == 1
            &&& json::json_view(json::json_view(members["params"@])->Array_0[0])
                == JsonView::Text(tx_hash@)
            &&& json::json_view(members["id"@]) == JsonView::Text(id@)
        }),
{
}

/// A new client knows the address of the node, and nobody waits.
pub proof fn law_nobody_waits_at_first<S>(
    ws_url: &str,
    client: WsClient<S>,
    url: &str,
    id: &str,
    channel: Option<&S>,
)
    requires
        call_ensures(WsClient::<S>::new, (ws_url,), client),
        call_ensures(WsClient::<S>::ws_url, (&client,), url),
        call_ensures(WsClient::<S>::channel, (&client, id), channel),
    ensures
        url@ == ws_url@,
        channel is None,
{
}

/// The channel that waits under an identifier, and the address of the node, can be
/// looked up.
pub proof fn law_the_client_can_be_observed<S>(
    client: &WsClient<S>,
    url: &str,
    id: &str,
    channel: Option<&S>,
)
    requires
        call_ensures(WsClient::<S>::ws_url, (client,), url),
        call_ensures(WsClient::<S>::channel, (client, id), channel),
    ensures
        url@ == client.url(),
        channel is Some <==> client.pending().contains_key(id@),
        channel matches Some(found) ==> *found == client.pending()[id@],
{
}

proof fn lemma_last_channel<S>(
    pending: Map<Seq<char>, S>,
    ids: Seq<Seq<char>>,
    channels: Seq<S>,
    k: int,
)
    requires
        0 <= k < ids.len(),
        forall|j: int| k < j < ids.len() ==> #[trigger] ids[j] != ids[k],
    ensures
        websocket::registered(pending, ids, channels).contains_key(ids[k]),
        websocket::registered(pending, ids, channels)[ids[k]] == channels[k],
    decreases ids.len(),
{
    if k < ids.len() - 1 {
        let earlier = ids.drop_last();
        assert forall|j: int| k < j < earlier.len() implies #[trigger] earlier[j]
            != earlier[k] by {
            assert(ids[j] == earlier[j]);
        }
        lemma_last_channel(pending, earlier, channels, k);
        assert(ids[ids.len() - 1] == ids.last());
    }
}

proof fn lemma_other_channels<S>(
    pending: Map<Seq<char>, S>,
    ids: Seq<Seq<char>>,
    channels: Seq<S>,
    id: Seq<char>,
)
    requires
        forall|j: int| 0 <= j < ids.len() ==> #[trigger] ids[j] != id,
    ensures
        websocket::registered(pending, ids, channels).contains_key(id) == pending.contains_key(id),
        websocket::registered(pending, ids, channels)[id] == pending[id],
    decreases ids.len(),
{
    if ids.len() > 0 {
        let earlier = ids.drop_last();
        assert forall|j: int| 0 <= j < earlier.len() implies #[trigger] earlier[j] != id by {
            assert(ids[j] == earlier[j]);
        }
        lemma_other_channels(pending, earlier, channels, id);
        assert(ids[ids.len() - 1] == ids.last());
    }
}

/// The text of a batch reads back as one request for each transaction, in order:
/// request `i` calls `get_transaction` with hash `i` under identifier `i`.
pub proof fn law_a_batch_asks_for_its_transactions<S>(
    before: WsClient<S>,
    after: WsClient<S>,
    tx_hashes: &Vec<String>,
    ids: &Vec<String>,
    channels: Vec<S>,
    res: Result<String, Error>,
)
    requires
        exists|client: &mut WsClient<S>|
            *client == before && *final(client) == after && #[trigger] call_ensures(
                WsClient::<S>::request_batch,
                (client, tx_hashes, ids, channels),
                res,
            ),
    ensures
        res is Ok,
        json::json_parsed(res->Ok_0@) is Some,
        json::json_view(json::json_parsed(res->Ok_0@)->0) is Array,
        json::json_view(json::json_parsed(res->Ok_0@)->0)->Array_0.len() == tx_hashes@.len(),
        forall|i: int|
            0 <= i < tx_hashes@.len() ==> {
                let request = #[trigger] json::json_view(
                    json::json_parsed(res->Ok_0@)->0,
                )->Array_0[i];
                let members = json::json_view(request)->Object_0;
                &&& json::json_view(request) is Object
                &&& members.dom() == set!["jsonrpc"@, "method"@, "params"@, "id"@]
                &&& json::json_view(members["jsonrpc"@]) == JsonView::Text("2.0"@)
                &&& json::json_view(members["method"@]) == JsonView::Text("get_transaction"@)
                &&& json::json_view(members["params"@]) is Array
                &&& json::json_view(members["params"@])->Array_0.len() == 1
                &&& json::json_view(json::json_view(members["params"@])->Array_0[0])
                    == JsonView::Text(tx_hashes@[i]@)
                &&& json::json_view(members["id"@]) == JsonView::Text(ids@[i]@)
            },
        after.url() == before.url(),
{
    let message = json::json_parsed(res->Ok_0@)->0;
    let requests = json::json_view(message)->Array_0;
    assert(websocket::is_batch(
        requests,
        enrichment::texts(tx_hashes@),
        enrichment::texts(ids@),
    ));
    assert forall|i: int| 0 <= i < tx_hashes@.len() implies websocket::is_request(
        #[trigger] requests[i],
        tx_hashes@[i]@,
        ids@[i]@,
    ) by {
        assert(enrichment::texts(tx_hashes@)[i] == tx_hashes@[i]@);
        assert(enrichment::texts(ids@)[i] == ids@[i]@);
    }
}

/// After a batch each channel waits under its identifier, unless a later request of
/// the batch has the same one. Whoever waited under another identifier still does.
pub proof fn law_a_batch_registers_its_channels<S>(
    before: WsClient<S>,
    after: WsClient<S>,
    tx_hashes: &Vec<String>,
    ids: &Vec<String>,
    channels: Vec<S>,
    res: Result<String, Error>,
)
    requires
        exists|client: &mut WsClient<S>|
            *client == before && *final(client) == after && #[trigger] call_ensures(
                WsClient::<S>::request_batch,
                (client, tx_hashes, ids, channels),
                res,
            ),
    ensures
        forall|k: int|
            #![trigger ids@[k]]
            0 <= k < ids@.len() && (forall|j: int|
                k < j < ids@.len() ==> (#[trigger] ids@[j])@ != ids@[k]@) ==> {
                &&& after.pending().contains_key(ids@[k]@)
                &&& after.pending()[ids@[k]@] == channels@[k]
            },
        forall|id: Seq<char>|
            (forall|j: int| 0 <= j < ids@.len() ==> (#[trigger] ids@[j])@ != id) ==> {
                &&& #[trigger] after.pending().contains_key(id) == before.pending().contains_key(id)
                &&& after.pending()[id] == before.pending()[id]
            },
{
    let keys = enrichment::texts(ids@);
    assert forall|k: int|
        #![trigger ids@[k]]
        0 <= k < ids@.len() && (forall|j: int|
            k < j < ids@.len() ==> (#[trigger] ids@[j])@ != ids@[k]@) implies {
        &&& after.pending().contains_key(ids@[k]@)
        &&& after.pending()[ids@[k]@] == channels@[k]
    } by {
        assert(keys[k] == ids@[k]@);
        assert forall|j: int| k < j < keys.len() implies #[trigger] keys[j] != keys[k] by {
            assert(keys[j] == ids@[j]@);
        }
        lemma_last_channel(before.pending(), keys, channels@, k);
    }
    assert forall|id: Seq<char>|
        (forall|j: int| 0 <= j < ids@.len() ==> (#[trigger] ids@[j])@ != id) implies {
        &&& #[trigger] after.pending().contains_key(id) == before.pending().contains_key(id)
        &&& after.pending()[id] == before.pending()[id]
    } by {
        assert forall|j: int| 0 <= j < keys.len() implies #[trigger] keys[j] != id by {
            assert(keys[j] == ids@[j]@);
        }
        lemma_other_channels(before.pending(), keys, channels@, id);
    }
}

/// Nothing is asked for nothing.
pub proof fn law_nothing_is_asked_for_nothing<S>(
    before: WsClient<S>,
    after: WsClient<S>,
    tx_hashes: &Vec<String>,
    channels: Vec<S>,
    res: Result<Option<String>, Error>,
)
    requires
        exists|client: &mut WsClient<S>|
            *client == before && *final(client) == after && #[trigger] call_ensures(
                WsClient::<S>::get_transactions,
                (client, tx_hashes, channels),
                res,
            ),
        tx_hashes@.len() == 0,
    ensures
        res == Ok::<Option<String>, Error>(None),
        after.pending() == before.pending(),
        after.url() == before.url(),
{
}

/// To fetch transactions is to send a batch with one request for each of them, in
/// order, each under an identifier in the form of a random UUID. Where these differ,
/// channel `i` waits under the identifier of request `i`. Whoever waited under
/// another identifier still does.
pub proof fn law_fetching_asks_under_random_identifiers<S>(
    before: WsClient<S>,
    after: WsClient<S>,
    tx_hashes: &Vec<String>,
    channels: Vec<S>,
    res: Result<Option<String>, Error>,
) -> (ids: Seq<Seq<char>>)
    requires
        exists|client: &mut WsClient<S>|
            *client == before && *final(client) == after && #[trigger] call_ensures(
                WsClient::<S>::get_transactions,
                (client, tx_hashes, channels),
                res,
            ),
        tx_hashes@.len() > 0,
        tx_hashes@.len() == channels@.len(),
    ensures
        res is Ok,
        res->Ok_0 is Some,
        ids.len() == tx_hashes@.len(),
        json::json_parsed(res->Ok_0->0@) is Some,
        json::json_view(json::json_parsed(res->Ok_0->0@)->0) is Array,
        json::json_view(json::json_parsed(res->Ok_0->0@)->0)->Array_0.len() == tx_hashes@.len(),
        forall|i: int|
            0 <= i < tx_hashes@.len() ==> {
                let request = #[trigger] json::json_view(
                    json::json_parsed(res->Ok_0->0@)->0,
                )->Array_0[i];
                let members = json::json_view(request)->Object_0;
                &&& json::json_view(request) is Object
                &&& members.dom() == set!["jsonrpc"@, "method"@, "params"@, "id"@]
                &&& json::json_view(members["jsonrpc"@]) == JsonView::Text("2.0"@)
                &&& json::json_view(members["method"@]) == JsonView::Text("get_transaction"@)
                &&& json::json_view(members["params"@]) is Array
                &&& json::json_view(members["params"@])->Array_0.len() == 1
                &&& json::json_view(json::json_view(members["params"@])->Array_0[0])
                    == JsonView::Text(tx_hashes@[i]@)
                &&& json::json_view(members["id"@]) == JsonView::Text(ids[i])
            },
        forall|i: int|
            #![trigger ids[i]]
            0 <= i < ids.len() ==> {
                &&& ids[i].len() == 36
                &&& ids[i][8] == '-' && ids[i][13] == '-' && ids[i][18] == '-' && ids[i][23] == '-'
                &&& ids[i][14] == '4'
                &&& ids[i][19] == '8' || ids[i][19] == '9' || ids[i][19] == 'a' || ids[i][19] == 'b'
                &&& forall|c: int|
                    0 <= c < 36 && c != 8 && c != 13 && c != 18 && c != 23 ==> '0'
                        <= #[trigger] ids[i][c] <= '9' || 'a' <= ids[i][c] <= 'f'
            },
        ids.no_duplicates() ==> forall|i: int|
            #![trigger ids[i]]
            0 <= i < ids.len() ==> after.pending().contains_key(ids[i]) && after.pending()[ids[i]]
                == channels@[i],
        forall|id: Seq<char>|
            !ids.contains(id) ==> {
                &&& #[trigger] after.pending().contains_key(id) == before.pending().contains_key(id)
                &&& after.pending()[id] == before.pending()[id]
            },
        after.url() == before.url(),
{
    let text = res->Ok_0->0@;
    let ids = choose|ids: Seq<Seq<char>>| #[trigger]
        websocket::are_random_uuids(ids) && websocket::is_batch_text(
            text,
            enrichment::texts(tx_hashes@),
            ids,
        ) && after.pending() == websocket::registered(before.pending(), ids, channels@);
    let requests = json::json_view(json::json_parsed(text)->0)->Array_0;
    assert(websocket::is_batch(requests, enrichment::texts(tx_hashes@), ids));
    assert forall|i: int| 0 <= i < tx_hashes@.len() implies websocket::is_request(
        #[trigger] requests[i],
        tx_hashes@[i]@,
        ids[i],
    ) by {
        assert(enrichment::texts(tx_hashes@)[i] == tx_hashes@[i]@);
    }
    assert forall|i: int| 0 <= i < ids.len() implies websocket::is_random_uuid(
        #[trigger] ids[i],
    ) by {}
    if ids.no_duplicates() {
        assert forall|i: int| #![trigger ids[i]] 0 <= i < ids.len() implies after.pending().contains_key(
            ids[i],
        ) && after.pending()[ids[i]] == channels@[i] by {
            lemma_last_channel(before.pending(), ids, channels@, i);
        }
    }
    assert forall|id: Seq<char>| !ids.contains(id) implies {
        &&& #[trigger] after.pending().contains_key(id) == before.pending().contains_key(id)
        &&& after.pending()[id] == before.pending()[id]
    } by {
        assert forall|j: int| 0 <= j < ids.len() implies #[trigger] ids[j] != id by {
            assert(ids.contains(ids[j]));
        }
        lemma_other_channels(before.pending(), ids, channels@, id);
    }
    ids
}

proof fn lemma_awaited_is_a_filter<S>(
    pending: Map<Seq<char>, S>,
    responses: Seq<Value>,
    waits: spec_fn(Value) -> bool,
)
    requires
        forall|response: Value| #[trigger]
            waits(response) <==> {
                let members = json::json_view(response)->Object_0;
                &&& json::json_view(response) is Object
                &&& members.contains_key("id"@)
                &&& json::json_view(members["id"@]) is Text
                &&& pending.contains_key(json::json_view(members["id"@])->Text_0)
            },
    ensures
        websocket::awaited(pending, responses).map_values(
            |delivery: (Seq<char>, Value)| delivery.1,
        ) == responses.filter(waits),
    decreases responses.len(),
{
    reveal(Seq::filter);
    let second = |delivery: (Seq<char>, Value)| delivery.1;
    if responses.len() > 0 {
        let rest = responses.drop_last();
        lemma_awaited_is_a_filter(pending, rest, waits);
        let earlier = websocket::awaited(pending, rest);
        let all = websocket::awaited(pending, responses);
        if waits(responses.last()) {
            assert(all.map_values(second) =~= earlier.map_values(second).push(responses.last()));
        }
    } else {
        assert(websocket::awaited(pending, responses).map_values(second) =~= responses.filter(
            waits,
        ));
    }
}

/// A message delivers, in order, exactly those of its responses that are objects
/// with a string under `id` under which somebody waits. Each goes to that string. A
/// message that is an array holds its elements as responses, any other message is
/// one response. Nothing else that a response holds makes a difference.
pub proof fn law_responses_go_to_those_who_wait<S>(
    client: &WsClient<S>,
    message: Value,
    res: Vec<Delivery>,
)
    requires
        call_ensures(WsClient::<S>::route_responses, (client, message), res),
    ensures
        res@.map_values(|delivery: Delivery| delivery.response) == (match json::json_view(message) {
            JsonView::Array(elements) => elements,
            _ => seq![message],
        }).filter(
            |response: Value|
                {
                    let members = json::json_view(response)->Object_0;
                    &&& json::json_view(response) is Object
                    &&& members.contains_key("id"@)
                    &&& json::json_view(members["id"@]) is Text
                    &&& client.pending().contains_key(json::json_view(members["id"@])->Text_0)
                },
        ),
        forall|d: int|
            0 <= d < res@.len() ==> {
                let response = (#[trigger] res@[d]).response;
                &&& json::json_view(response) is Object
                &&& json::json_view(response)->Object_0.contains_key("id"@)
                &&& json::json_view(json::json_view(response)->Object_0["id"@]) == JsonView::Text(
                    res@[d].id@,
                )
                &&& client.pending().contains_key(res@[d].id@)
            },
{
    let responses = websocket::responses(message);
    let awaited = websocket::awaited(client.pending(), responses);
    let waits = |response: Value|
        {
            let members = json::json_view(response)->Object_0;
            &&& json::json_view(response) is Object
            &&& members.contains_key("id"@)
            &&& json::json_view(members["id"@]) is Text
            &&& client.pending().contains_key(json::json_view(members["id"@])->Text_0)
        };
    lemma_awaited_is_a_filter(client.pending(), responses, waits);
    let delivered = websocket::delivered(res@);
    assert(res@.map_values(|delivery: Delivery| delivery.response) =~= awaited.map_values(
        |delivery: (Seq<char>, Value)| delivery.1,
    )) by {
        assert forall|d: int| 0 <= d < res@.len() implies awaited[d].1
            == #[trigger] res@[d].response by {
            assert(delivered[d] == (res@[d].id@, res@[d].response));
        }
    }
    assert forall|d: int| 0 <= d < res@.len() implies ({
        let response = (#[trigger] res@[d]).response;
        &&& json::json_view(response) is Object
        &&& json::json_view(response)->Object_0.contains_key("id"@)
        &&& json::json_view(json::json_view(response)->Object_0["id"@]) == JsonView::Text(
            res@[d].id@,
        )
        &&& client.pending().contains_key(res@[d].id@)
    }) by {
        assert(delivered[d] == (res@[d].id@, res@[d].response));
        assert(awaited.contains(awaited[d]));
        websocket::lemma_delivered_iff_awaited(
            client.pending(),
            responses,
            res@[d].id@,
            res@[d].response,
        );
    }
}

/// A response whose `id` is a string under which a channel waits is delivered to it,
/// whatever else the response or the message holds.
pub proof fn law_no_awaited_response_is_lost<S>(
    client: &WsClient<S>,
    message: Value,
    response: Value,
    id: &str,
    channel: Option<&S>,
    res: Vec<Delivery>,
)
    requires
        call_ensures(WsClient::<S>::route_responses, (client, message), res),
        call_ensures(WsClient::<S>::channel, (client, id), channel),
        channel is Some,
        match json::json_view(message) {
            JsonView::Array(elements) => elements.contains(response),
            _ => response == message,
        },
        json::json_view(response) is Object,
        json::json_view(response)->Object_0.contains_key("id"@),
        json::json_view(json::json_view(response)->Object_0["id"@]) == JsonView::Text(id@),
    ensures
        exists|d: int|
            0 <= d < res@.len() && (#[trigger] res@[d]).id@ == id@ && res@[d].response == response,
{
    let responses = websocket::responses(message);
    if !(json::json_view(message) is Array) {
        assert(responses[0] == message);
    }
    assert(responses.contains(response));
    websocket::lemma_delivered_iff_awaited(client.pending(), responses, id@, response);
    let delivered = websocket::delivered(res@);
    let d = choose|d: int| 0 <= d < delivered.len() && delivered[d] == (id@, response);
    assert(delivered[d] == (res@[d].id@, res@[d].response));
}

/// A text that is no JSON delivers nothing; any other delivers what the message that
/// it writes delivers.
pub proof fn law_a_text_delivers_its_message<S>(
    client: &WsClient<S>,
    text: &str,
    res: Vec<Delivery>,
    direct: Vec<Delivery>,
)
    requires
        call_ensures(WsClient::<S>::route_message, (client, text), res),
        json::json_parsed(text@) is Some ==> call_ensures(
            WsClient::<S>::route_responses,
            (client, json::json_parsed(text@)->0),
            direct,
        ),
    ensures
        json::json_parsed(text@) is None ==> res@.len() == 0,
        json::json_parsed(text@) is Some ==> {
            &&& res@.len() == direct@.len()
            &&& forall|d: int|
                0 <= d < res@.len() ==> (#[trigger] res@[d]).id@ == direct@[d].id@
                    && res@[d].response == direct@[d].response
        },
{
    let delivered = websocket::delivered(res@);
    assert(delivered.len() == res@.len());
    if json::json_parsed(text@) is Some {
        let expected = websocket::delivered(direct@);
        assert(expected.len() == direct@.len());
        assert forall|d: int| 0 <= d < res@.len() implies (#[trigger] res@[d]).id@ == direct@[d].id@
            && res@[d].response == direct@[d].response by {
            assert(delivered[d] == (res@[d].id@, res@[d].response));
            assert(expected[d] == (direct@[d].id@, direct@[d].response));
        }
    }
}

/// A message that arrives is delivered to those who wait, and they go on waiting.
pub proof fn law_an_arriving_message_is_delivered<S>(
    before: WsClient<S>,
    after: WsClient<S>,
    text: String,
    res: ReceiveAction,
    s: &str,
    direct: Vec<Delivery>,
)
    requires
        exists|client: &mut WsClient<S>|
            *client == before && *final(client) == after && #[trigger] call_ensures(
                WsClient::<S>::on_received,
                (client, Received::Frame(text)),
                res,
            ),
        s@ == text@,
        call_ensures(WsClient::<S>::route_message, (&before, s), direct),
    ensures
        after.pending() == before.pending(),
        after.url() == before.url(),
        res is Deliver,
        res->Deliver_0@.len() == direct@.len(),
        forall|d: int|
            0 <= d < direct@.len() ==> (#[trigger] res->Deliver_0@[d]).id@ == direct@[d].id@
                && res->Deliver_0@[d].response == direct@[d].response,
{
    let deliveries = res->Deliver_0@;
    let delivered = websocket::delivered(deliveries);
    let expected = websocket::delivered(direct@);
    assert(delivered == expected);
    assert(delivered.len() == deliveries.len());
    assert(expected.len() == direct@.len());
    assert forall|d: int| 0 <= d < direct@.len() implies (#[trigger] deliveries[d]).id@
        == direct@[d].id@ && deliveries[d].response == direct@[d].response by {
        assert(delivered[d] == (deliveries[d].id@, deliveries[d].response));
        assert(expected[d] == (direct@[d].id@, direct@[d].response));
    }
}

/// When the connection fails or ends, nobody waits any more, and the client connects
/// to the same node after five seconds.
pub proof fn law_a_lost_connection_leaves_nobody_waiting<S>(
    before: WsClient<S>,
    after: WsClient<S>,
    received: Received,
    res: ReceiveAction,
    id: &str,
    channel: Option<&S>,
)
    requires
        exists|client: &mut WsClient<S>|
            *client == before && *final(client) == after && #[trigger] call_ensures(
                WsClient::<S>::on_received,
                (client, received),
                res,
            ),
        received is Failed || received is Ended,
        call_ensures(WsClient::<S>::channel, (&after, id), channel),
    ensures
        channel is None,
        after.url() == before.url(),
        res matches ReceiveAction::Reconnect { delay_secs } && delay_secs == 5,
{
}

/// Connecting is tried every five seconds until it succeeds.
pub proof fn law_connecting_is_tried_until_it_succeeds(connected: bool, res: ConnectAction)
    requires
        call_ensures(websocket::after_connect, (connected,), res),
    ensures
        connected ==> res is Resume,
        !connected ==> (res matches ConnectAction::Retry { delay_secs } && delay_secs == 5),
{
}

} // verus!
