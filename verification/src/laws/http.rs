//! Laws on HTTP queries.

use crate::enrichment;
use crate::enrichment::EnrichmentStep;
use crate::error::Error;
use crate::http;
use crate::http::{Lookup, LookupStep, StatusCode, TransactionRequest};
use crate::text;
use crate::types::Transaction;
use vstd::prelude::*;

verus! {

/// A normalized hash begins with `0x`, which is added exactly where it is missing.
pub proof fn law_normalized_hashes_have_one_prefix(hash: &str, res: String)
    requires
        call_ensures(http::normalize_tx_hash, (hash,), res),
    ensures
        if hash@.len() >= 2 && hash@[0] == '0' && hash@[1] == 'x' {
            res@ == hash@
        } else {
            res@ == seq!['0', 'x'] + hash@
        },
{
    reveal_strlit("0x");
    assert("0x"@ =~= seq!['0', 'x']);
}

proof fn lemma_prefix_and_digits(hash: Seq<char>, digits: Seq<char>)
    requires
        digits.len() == 64,
        forall|i: int|
            0 <= i < 64 ==> {
                ||| '0' <= #[trigger] digits[i] <= '9'
                ||| 'a' <= digits[i] <= 'f'
                ||| 'A' <= digits[i] <= 'F'
            },
        hash == digits || hash == seq!['0', 'x'] + digits,
    ensures
        http::normalized(hash) == seq!['0', 'x'] + digits,
        http::is_tx_hash(http::normalized(hash)),
{
    reveal_strlit("0x");
    assert("0x"@ =~= seq!['0', 'x']);
    assert('0' <= digits[1] <= '9' || 'a' <= digits[1] <= 'f' || 'A' <= digits[1] <= 'F');
    let full = seq!['0', 'x'] + digits;
    assert(full.skip(2) =~= digits);
    assert forall|i: int| 0 <= i < digits.len() implies text::is_hex_digit(
        #[trigger] digits[i],
    ) by {}
    assert(http::is_tx_hash(full));
}

proof fn lemma_malformed(hash: Seq<char>)
    requires
        !(hash.len() == 64 && forall|i: int|
            0 <= i < hash.len() ==> {
                ||| '0' <= #[trigger] hash[i] <= '9'
                ||| 'a' <= hash[i] <= 'f'
                ||| 'A' <= hash[i] <= 'F'
            }),
        !(hash.len() == 66 && hash[0] == '0' && hash[1] == 'x' && forall|i: int|
            2 <= i < hash.len() ==> {
                ||| '0' <= #[trigger] hash[i] <= '9'
                ||| 'a' <= hash[i] <= 'f'
                ||| 'A' <= hash[i] <= 'F'
            }),
    ensures
        !http::is_tx_hash(http::normalized(hash)),
{
    reveal_strlit("0x");
    let full = http::normalized(hash);
    if http::is_tx_hash(full) {
        let digits = full.skip(2);
        if text::has_hex_prefix(hash) {
            assert forall|i: int| 2 <= i < hash.len() implies ('0' <= #[trigger] hash[i] <= '9'
                || 'a' <= hash[i] <= 'f' || 'A' <= hash[i] <= 'F') by {
                assert(text::is_hex_digit(digits[i - 2]));
            }
        } else {
            assert(digits =~= hash);
            assert forall|i: int| 0 <= i < hash.len() implies ('0' <= #[trigger] hash[i] <= '9'
                || 'a' <= hash[i] <= 'f' || 'A' <= hash[i] <= 'F') by {
                assert(text::is_hex_digit(digits[i]));
            }
        }
    }
}

/// A hash of 64 hexadecimal digits is valid with and without its prefix, and stands
/// for the same transaction.
pub proof fn law_valid_hashes(hash: &str, digits: Seq<char>, res: Result<String, String>)
    requires
        call_ensures(http::validate_tx_hash, (hash,), res),
        digits.len() == 64,
        forall|i: int|
            0 <= i < 64 ==> {
                ||| '0' <= #[trigger] digits[i] <= '9'
                ||| 'a' <= digits[i] <= 'f'
                ||| 'A' <= digits[i] <= 'F'
            },
        hash@ == digits || hash@ == seq!['0', 'x'] + digits,
    ensures
        res matches Ok(valid) && valid@ == seq!['0', 'x'] + digits,
{
    lemma_prefix_and_digits(hash@, digits);
}

/// Everything else is no hash.
pub proof fn law_invalid_hashes(hash: &str, res: Result<String, String>)
    requires
        call_ensures(http::validate_tx_hash, (hash,), res),
        !(hash@.len() == 64 && forall|i: int|
            0 <= i < hash@.len() ==> {
                ||| '0' <= #[trigger] hash@[i] <= '9'
                ||| 'a' <= hash@[i] <= 'f'
                ||| 'A' <= hash@[i] <= 'F'
            }),
        !(hash@.len() == 66 && hash@[0] == '0' && hash@[1] == 'x' && forall|i: int|
            2 <= i < hash@.len() ==> {
                ||| '0' <= #[trigger] hash@[i] <= '9'
                ||| 'a' <= hash@[i] <= 'f'
                ||| 'A' <= hash@[i] <= 'F'
            }),
    ensures
        res matches Err(words) && words@ == "Invalid transaction hash format"@,
{
    lemma_malformed(hash@);
}

/// A query for 64 hexadecimal digits, with or without prefix, by path or by body,
/// begins by asking the node for exactly that hash with its prefix. A query by path
/// asks for details; one by body asks for them if it says so.
pub proof fn law_queries_ask_for_the_hash(
    hash: &str,
    payload: &TransactionRequest,
    digits: Seq<char>,
    enrich: bool,
    step: LookupStep,
    by_path: LookupStep,
    by_body: LookupStep,
)
    requires
        call_ensures(http::get_and_enrich_transaction, (hash, enrich), step),
        call_ensures(http::get_transaction_handler, (hash,), by_path),
        call_ensures(http::post_transaction_handler, (payload,), by_body),
        digits.len() == 64,
        forall|i: int|
            0 <= i < 64 ==> {
                ||| '0' <= #[trigger] digits[i] <= '9'
                ||| 'a' <= digits[i] <= 'f'
                ||| 'A' <= digits[i] <= 'F'
            },
        hash@ == digits || hash@ == seq!['0', 'x'] + digits,
        payload.tx_hash@ == digits || payload.tx_hash@ == seq!['0', 'x'] + digits,
    ensures
        step is Fetch,
        step->tx_hashes@.len() == 1,
        step->tx_hashes@[0]@ == seq!['0', 'x'] + digits,
        step->next matches Lookup::Transaction { hash: given, enrich: details } && given@ == hash@
            && details == enrich,
        by_path is Fetch,
        by_path->tx_hashes@.len() == 1,
        by_path->tx_hashes@[0]@ == seq!['0', 'x'] + digits,
        by_path->next matches Lookup::Transaction { hash: given, enrich: details } && given@
            == hash@ && details,
        by_body is Fetch,
        by_body->tx_hashes@.len() == 1,
        by_body->tx_hashes@[0]@ == seq!['0', 'x'] + digits,
        by_body->next matches Lookup::Transaction { hash: given, enrich: details } && given@
            == payload.tx_hash@ && details == payload.enrich,
{
    lemma_prefix_and_digits(hash@, digits);
    lemma_prefix_and_digits(payload.tx_hash@, digits);
    lemma_one_text(step->tx_hashes, seq!['0', 'x'] + digits);
    lemma_one_text(by_path->tx_hashes, seq!['0', 'x'] + digits);
    lemma_one_text(by_body->tx_hashes, seq!['0', 'x'] + digits);
}

proof fn lemma_one_text(strings: Vec<String>, s: Seq<char>)
    requires
        enrichment::texts(strings@) == seq![s],
    ensures
        strings@.len() == 1,
        strings@[0]@ == s,
{
    assert(enrichment::texts(strings@).len() == strings@.len());
    assert(enrichment::texts(strings@)[0] == strings@[0]@);
}

/// A query for anything else is a bad request, about which the node is not asked.
pub proof fn law_malformed_queries_are_refused(
    hash: &str,
    payload: &TransactionRequest,
    enrich: bool,
    step: LookupStep,
    by_path: LookupStep,
    by_body: LookupStep,
)
    requires
        call_ensures(http::get_and_enrich_transaction, (hash, enrich), step),
        call_ensures(http::get_transaction_handler, (hash,), by_path),
        call_ensures(http::post_transaction_handler, (payload,), by_body),
        payload.tx_hash@ == hash@,
        !(hash@.len() == 64 && forall|i: int|
            0 <= i < hash@.len() ==> {
                ||| '0' <= #[trigger] hash@[i] <= '9'
                ||| 'a' <= hash@[i] <= 'f'
                ||| 'A' <= hash@[i] <= 'F'
            }),
        !(hash@.len() == 66 && hash@[0] == '0' && hash@[1] == 'x' && forall|i: int|
            2 <= i < hash@.len() ==> {
                ||| '0' <= #[trigger] hash@[i] <= '9'
                ||| 'a' <= hash@[i] <= 'f'
                ||| 'A' <= hash@[i] <= 'F'
            }),
    ensures
        step matches LookupStep::Finished(Err((status, words))) && status == StatusCode::BadRequest
            && words@ == "HTTP error: "@ + "Invalid transaction hash format"@,
        by_path matches LookupStep::Finished(Err((status, words))) && status
            == StatusCode::BadRequest && words@ == "HTTP error: "@
            + "Invalid transaction hash format"@,
        by_body matches LookupStep::Finished(Err((status, words))) && status
            == StatusCode::BadRequest && words@ == "HTTP error: "@
            + "Invalid transaction hash format"@,
{
    lemma_malformed(hash@);
}

/// Once the node was asked for a transaction: a failure is an internal error, no
/// answer means that the transaction is not found under the hash that was given, and
/// the last answer is the reply, unless details are wanted and it has inputs. Then
/// it is enriched: the node is asked for its sources, and it is kept as it is.
pub proof fn law_a_transaction_is_sent_or_enriched(
    hash: String,
    enrich: bool,
    fetched: Result<Vec<Transaction>, Error>,
    step: LookupStep,
    message: String,
    enrichment_step: EnrichmentStep,
)
    requires
        call_ensures(Lookup::resume, (Lookup::Transaction { hash, enrich }, fetched), step),
        fetched is Err ==> call_ensures(Error::message, (&fetched->Err_0,), message),
        fetched is Ok && fetched->Ok_0@.len() > 0 ==> call_ensures(
            enrichment::start_enrichment,
            (fetched->Ok_0@.last(),),
            enrichment_step,
        ),
    ensures
        fetched is Err ==> (step matches LookupStep::Finished(Err((status, words))) && status
            == StatusCode::InternalServerError && words@ == "Failed to fetch transaction: "@
            + message@),
        fetched is Ok && fetched->Ok_0@.len() == 0 ==> (step matches LookupStep::Finished(
            Err((status, words)),
        ) && status == StatusCode::NotFound && words@ == "Transaction "@ + hash@ + " not found"@),
        fetched is Ok && fetched->Ok_0@.len() > 0 && (!enrich
            || fetched->Ok_0@.last().inputs@.len() == 0) ==> step == LookupStep::Finished(
            Ok(fetched->Ok_0@.last()),
        ),
        fetched is Ok && fetched->Ok_0@.len() > 0 && enrich
            && fetched->Ok_0@.last().inputs@.len() > 0 ==> {
            &&& step is Fetch
            &&& step->next is Sources
            &&& step->next->tx == fetched->Ok_0@.last()
            &&& step->tx_hashes@.len() == enrichment_step->Fetch_tx_hashes@.len()
            &&& step->next->tx_hashes@.len() == step->tx_hashes@.len()
            &&& forall|k: int|
                0 <= k < step->tx_hashes@.len() ==> (#[trigger] step->tx_hashes@[k])@
                    == enrichment_step->Fetch_tx_hashes@[k]@ && step->next->tx_hashes@[k]@
                    == step->tx_hashes@[k]@
        },
{
    if fetched is Ok && fetched->Ok_0@.len() > 0 && enrich && fetched->Ok_0@.last().inputs@.len()
        > 0 {
        let asked = step->tx_hashes@;
        let kept = step->next->tx_hashes@;
        let sources = enrichment_step->Fetch_tx_hashes@;
        assert(enrichment::texts(asked) == enrichment::texts(sources));
        assert(enrichment::texts(asked).len() == asked.len());
        assert(enrichment::texts(kept).len() == kept.len());
        assert(enrichment::texts(sources).len() == sources.len());
        assert forall|k: int| 0 <= k < asked.len() implies (#[trigger] asked[k])@ == sources[k]@
            && kept[k]@ == asked[k]@ by {
            assert(enrichment::texts(asked)[k] == asked[k]@);
            assert(enrichment::texts(kept)[k] == kept[k]@);
            assert(enrichment::texts(sources)[k] == sources[k]@);
        }
    }
}

/// Once the node was asked for the sources of a transaction, the reply is the
/// transaction enriched from them; where that fails, it is an internal error.
pub proof fn law_the_reply_is_the_enriched_transaction(
    tx: Transaction,
    tx_hashes: Vec<String>,
    fetched: Result<Vec<Transaction>, Error>,
    step: LookupStep,
    enriched: Result<Transaction, Error>,
    message: String,
)
    requires
        call_ensures(Lookup::resume, (Lookup::Sources { tx, tx_hashes }, fetched), step),
        call_ensures(enrichment::enrich_transaction, (tx, &tx_hashes, fetched), enriched),
        enriched is Err ==> call_ensures(Error::message, (&enriched->Err_0,), message),
    ensures
        enriched is Ok ==> {
            let reply = step->Finished_0->Ok_0;
            &&& step is Finished
            &&& step->Finished_0 is Ok
            &&& reply.inputs@ == enriched->Ok_0.inputs@
            &&& reply.hash == tx.hash
            &&& reply.outputs == tx.outputs
            &&& reply.cell_deps == tx.cell_deps
            &&& reply.header_deps == tx.header_deps
            &&& reply.outputs_data == tx.outputs_data
            &&& reply.version == tx.version
            &&& reply.witnesses == tx.witnesses
        },
        enriched is Err ==> (step matches LookupStep::Finished(Err((status, words))) && status
            == StatusCode::InternalServerError && words@ == "Failed to enrich transaction: "@
            + message@),
{
}

/// The address to listen on is the host, a colon and the port in decimal.
pub proof fn law_listen_address(address: &str, port: u16, res: String)
    requires
        call_ensures(http::listen_address, (address, port), res),
    ensures
        res@ == address@ + seq![':'] + text::decimal(port as nat),
{
    reveal_strlit(":");
    assert(":"@ =~= seq![':']);
}

/// Each status has its number.
pub proof fn law_status_numbers(status: StatusCode, res: u16)
    requires
        call_ensures(StatusCode::as_u16, (&status,), res),
    ensures
        status == StatusCode::BadRequest ==> res == 400,
        status == StatusCode::NotFound ==> res == 404,
        status == StatusCode::InternalServerError ==> res == 500,
{
}

} // verus!
