# ckb-tx-detail-service

A service that completes CKB transactions. An input of a CKB transaction only
names the output that it spends. The service asks a CKB node for the
transactions that hold those outputs, and copies capacity, lock and type script
into the inputs. It takes transactions from an MQTT topic and publishes the
detailed ones to another, and it answers HTTP queries: `GET /tx/:hash`, and
`POST /tx` with `{"tx_hash": .., "enrich": ..}`.

- `src/` decides everything and is verified with Verus. Where something has to be
  asked of the outside, a function returns a step that says what to ask for, and
  another one goes on with the answer.
  - `enrichment`: which transactions to ask for, and how inputs are completed
  - `websocket`: JSON-RPC batches, who waits for which reply, reconnection
  - `replies`: reading the replies to a batch
  - `http`: validating hashes, answering queries
  - `service`: MQTT settings and events, delays, messages
  - `config`, `error`, `types`, `json`, `text`: what these rest on
- `app/` owns the sockets, timers and tasks, and turns bytes into values.
- `tests/` runs the library.

Settings are read from the environment: `CKB_WS_URL`, `MQTT_HOST`, `MQTT_PORT`,
`MQTT_CLIENT_ID`, `MQTT_USERNAME`, `MQTT_PASSWORD`, `MQTT_SUBSCRIBE_TOPIC`,
`MQTT_PUBLISH_TOPIC`, `CONCURRENT_REQUESTS`, `HTTP_ADDRESS`, `HTTP_PORT`. Each has
a default, except for user name and password, which are used only together.
