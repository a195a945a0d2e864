//! HTTP queries for transactions.

use crate::enrichment;
use crate::enrichment::EnrichmentStep;
use crate::error::{Error, ErrorView};
use crate::text;
use crate::types::Transaction;
use vstd::prelude::*;

verus! {

/// The body of a query.
#[derive(Debug)]
pub struct TransactionRequest {
    pub tx_hash: String,
    pub enrich: bool,
}

/// A transaction hash with its `0x` prefix, whether or not it was given one.
pub open spec fn normalized(hash: Seq<char>) -> Seq<char> {
    if text::has_hex_prefix(hash) {
        hash
    } else {
        "0x"@ + hash
    }
}

/// A transaction hash in full: `0x`, then 32 bytes in hexadecimal.
pub open spec fn is_tx_hash(hash: Seq<char>) -> bool {
    &&& text::has_hex_prefix(hash)
    &&& hash.len() == 66
    &&& text::all_hex_digits(hash.skip(2))
}

/// Adds the `0x` prefix to a transaction hash that lacks it.
pub fn normalize_tx_hash(hash: &str) -> (res: String)
    ensures
        res@ == normalized(hash@),
{
    if text::starts_with_hex_prefix(hash) {
        hash.to_string()
    } else {
        "0x".to_string().concat(hash)
    }
}

/// Normalizes a transaction hash, and checks that it is one.
pub fn validate_tx_hash(hash: &str) -> (res: Result<String, String>)
    ensures
        if is_tx_hash(normalized(hash@)) {
            res is Ok && res->Ok_0@ == normalized(hash@)
        } else {
            res is Err && res->Err_0@ == "Invalid transaction hash format"@
        },
{
    let hash = normalize_tx_hash(hash);
    proof {
        reveal_strlit("0x");
        assert(text::has_hex_prefix(hash@));
    }
    let len: usize = hash.as_str().unicode_len();
    let digits = hash.as_str().substring_char(2, len);
    assert(digits@ == hash@.skip(2));
    if digits.unicode_len() != 64 || !text::is_all_hex_digits(digits) {
        Err("Invalid transaction hash format".to_string())
    } else {
        Ok(hash)
    }
}

/// The status of a query that failed.
#[derive(Debug, Clone, Copy, PartialEq, Eq, Structural)]
pub enum StatusCode {
    BadRequest,
    NotFound,
    InternalServerError,
}

impl StatusCode {
    /// The number of the status.
    pub fn as_u16(&self) -> (res: u16)
        ensures
            res == match self {
                StatusCode::BadRequest => 400u16,
                StatusCode::NotFound => 404u16,
                StatusCode::InternalServerError => 500u16,
            },
    {
        match self {
            StatusCode::BadRequest => 400,
            StatusCode::NotFound => 404,
            StatusCode::InternalServerError => 500,
        }
    }
}

/// The reply to a query: the transaction, or a status and a message.
pub type Reply = Result<Transaction, (StatusCode, String)>;

/// A query that waits for the node.
pub enum Lookup {
    /// For the transaction itself.
    Transaction { hash: String, enrich: bool },
    /// For the transactions that its inputs spend from.
    Sources { tx: Transaction, tx_hashes: Vec<String> },
}

/// What to do next to answer a query.
pub enum LookupStep {
    /// Ask the node for these transactions, then resume.
    Fetch { tx_hashes: Vec<String>, next: Lookup },
    /// Send this reply.
    Finished(Reply),
}

/// Whether a reply is a failure with this status and message.
pub open spec fn refuses(reply: Reply, status: StatusCode, message: Seq<char>) -> bool {
    reply matches Err((actual, words)) && actual == status && words@ == message
}

/// Whether a step begins the lookup of a transaction: a malformed hash is refused
/// without asking the node.
pub open spec fn begins_lookup(hash: Seq<char>, enrich: bool, step: LookupStep) -> bool {
    if is_tx_hash(normalized(hash)) {
        step matches LookupStep::Fetch { tx_hashes, next: Lookup::Transaction { hash: kept, enrich: kept_enrich } }
            && enrichment::texts(tx_hashes@) == seq![normalized(hash)] && kept@ == hash
            && kept_enrich == enrich
    } else {
        step matches LookupStep::Finished(reply) && refuses(
            reply,
            StatusCode::BadRequest,
            ErrorView::Http("Invalid transaction hash format"@).message(),
        )
    }
}

/// Begins to look up a transaction.
pub fn get_and_enrich_transaction(hash: &str, enrich: bool) -> (res: LookupStep)
    ensures
        begins_lookup(hash@, enrich, res),
{
    match validate_tx_hash(hash) {
        Ok(normalized_hash) => {
            let mut tx_hashes: Vec<String> = Vec::new();
            tx_hashes.push(normalized_hash);
            assert(enrichment::texts(tx_hashes@) =~= seq![normalized(hash@)]);
            LookupStep::Fetch {
                tx_hashes,
                next: Lookup::Transaction { hash: hash.to_string(), enrich },
            }
        },
        Err(e) => LookupStep::Finished(
            Err((StatusCode::BadRequest, Error::Http(e).message())),
        ),
    }
}

/// Begins to answer a query by path: such a query always asks for details.
pub fn get_transaction_handler(hash: &str) -> (res: LookupStep)
    ensures
        begins_lookup(hash@, true, res),
{
    get_and_enrich_transaction(hash, true)
}

/// Begins to answer a query by body.
pub fn post_transaction_handler(payload: &TransactionRequest) -> (res: LookupStep)
    ensures
        begins_lookup(payload.tx_hash@, payload.enrich, res),
{
    get_and_enrich_transaction(payload.tx_hash.as_str(), payload.enrich)
}

/// Whether a reply is the right one after the node was asked for the transactions
/// that the inputs of a transaction spend from.
pub open spec fn concludes_lookup(
    tx: Transaction,
    tx_hashes: Seq<Seq<char>>,
    fetched: Result<Vec<Transaction>, Error>,
    reply: Reply,
) -> bool {
    match fetched {
        Ok(source_txs) => match enrichment::all_filled(
            tx.inputs@,
            enrichment::source_map(tx_hashes, source_txs@),
        ) {
            Ok(inputs) => reply is Ok && enrichment::with_inputs(tx, inputs, reply->Ok_0),
            Err(e) => refuses(
                reply,
                StatusCode::InternalServerError,
                "Failed to enrich transaction: "@ + e.message(),
            ),
        },
        Err(e) => refuses(
            reply,
            StatusCode::InternalServerError,
            "Failed to enrich transaction: "@ + e@.message(),
        ),
    }
}

/// Whether a step is the right one after the node was asked for a transaction.
pub open spec fn continues_lookup(
    hash: Seq<char>,
    enrich: bool,
    fetched: Result<Vec<Transaction>, Error>,
    step: LookupStep,
) -> bool {
    match fetched {
        Ok(txs) => if txs@.len() == 0 {
            step matches LookupStep::Finished(reply) && refuses(
                reply,
                StatusCode::NotFound,
                "Transaction "@ + hash + " not found"@,
            )
        } else if !enrich || txs@.last().inputs@.len() == 0 {
            step == LookupStep::Finished(Ok(txs@.last()))
        } else {
            step matches LookupStep::Fetch { tx_hashes, next: Lookup::Sources { tx, tx_hashes: kept } }
                && tx == txs@.last() && enrichment::texts(tx_hashes@) == enrichment::distinct(
                enrichment::spent_hashes(tx.inputs@),
            ) && enrichment::texts(kept@) == enrichment::texts(tx_hashes@)
        },
        Err(e) => step matches LookupStep::Finished(reply) && refuses(
            reply,
            StatusCode::InternalServerError,
            "Failed to fetch transaction: "@ + e@.message(),
        ),
    }
}

impl Lookup {
    /// Goes on with a query once the node has been asked.
    pub fn resume(self, fetched: Result<Vec<Transaction>, Error>) -> (res: LookupStep)
        ensures
            match self {
                Lookup::Transaction { hash, enrich } => continues_lookup(
                    hash@,
                    enrich,
                    fetched,
                    res,
                ),
                Lookup::Sources { tx, tx_hashes } => res matches LookupStep::Finished(reply)
                    && concludes_lookup(tx, enrichment::texts(tx_hashes@), fetched, reply),
            },
    {
        match self {
            Lookup::Transaction { hash, enrich } => match fetched {
                Ok(mut txs) => match txs.pop() {
                    Some(tx) => {
                        if enrich {
                            match enrichment::start_enrichment(tx) {
                                EnrichmentStep::Fetch { tx, tx_hashes } => {
                                    let asked = copy_texts(&tx_hashes);
                                    LookupStep::Fetch {
                                        tx_hashes: asked,
                                        next: Lookup::Sources { tx, tx_hashes },
                                    }
                                },
                                EnrichmentStep::Finished(tx) => LookupStep::Finished(Ok(tx)),
                            }
                        } else {
                            LookupStep::Finished(Ok(tx))
                        }
                    },
                    None => LookupStep::Finished(
                        Err(
                            (
                                StatusCode::NotFound,
                                "Transaction ".to_string().concat(hash.as_str()).concat(
                                    " not found",
                                ),
                            ),
                        ),
                    ),
                },
                Err(e) => LookupStep::Finished(
                    Err(
                        (
                            StatusCode::InternalServerError,
                            "Failed to fetch transaction: ".to_string().concat(
                                e.message().as_str(),
                            ),
                        ),
                    ),
                ),
            },
            Lookup::Sources { tx, tx_hashes } => match enrichment::enrich_transaction(
                tx,
                &tx_hashes,
                fetched,
            ) {
                Ok(enriched_tx) => LookupStep::Finished(Ok(enriched_tx)),
                Err(e) => LookupStep::Finished(
                    Err(
                        (
                            StatusCode::InternalServerError,
                            "Failed to enrich transaction: ".to_string().concat(
                                e.message().as_str(),
                            ),
                        ),
                    ),
                ),
            },
        }
    }
}

fn copy_texts(strings: &Vec<String>) -> (res: Vec<String>)
    ensures
        enrichment::texts(res@) == enrichment::texts(strings@),
{
    let mut res: Vec<String> = Vec::new();
    let mut i: usize = 0;
    while i < strings.len()
        invariant
            i <= strings.len(),
            enrichment::texts(res@) == enrichment::texts(strings@).take(i as int),
        decreases strings.len() - i,
    {
        let ghost before = enrichment::texts(res@);
        res.push(strings[i].clone());
        assert(enrichment::texts(res@) =~= before.push(strings@[i as int]@));
        assert(enrichment::texts(strings@).take(i + 1) =~= enrichment::texts(strings@).take(
            i as int,
        ).push(strings@[i as int]@));
        i = i + 1;
    }
    assert(enrichment::texts(strings@).take(i as int) =~= enrichment::texts(strings@));
    res
}

/// The address that the server listens on.
pub fn listen_address(address: &str, port: u16) -> (res: String)
    ensures
        res@ == address@ + ":"@ + text::decimal(port as nat),
{
    address.to_string().concat(":").concat(text::decimal_text(port as u64).as_str())
}

/// A hash may be given with or without its prefix: 64 hexadecimal digits are
/// accepted either way, and stand for the same transaction.
pub proof fn lemma_the_prefix_is_optional(digits: Seq<char>)
    requires
        digits.len() == 64,
        text::all_hex_digits(digits),
    ensures
        normalized(digits) == "0x"@ + digits,
        normalized("0x"@ + digits) == "0x"@ + digits,
        is_tx_hash("0x"@ + digits),
{
    reveal_strlit("0x");
    assert(text::is_hex_digit(digits[1]));
    let hash = "0x"@ + digits;
    assert(hash[0] == '0' && hash[1] == 'x');
    assert(hash.skip(2) =~= digits);
}

/// Every hash that is accepted is 64 hexadecimal digits, behind a prefix or not.
pub proof fn lemma_only_digits_are_accepted(hash: Seq<char>)
    requires
        is_tx_hash(normalized(hash)),
    ensures
        exists|digits: Seq<char>| #[trigger]
            text::all_hex_digits(digits) && digits.len() == 64 && (hash == digits || hash
                == "0x"@ + digits),
{
    reveal_strlit("0x");
    let digits = normalized(hash).skip(2);
    assert(text::all_hex_digits(digits));
    if text::has_hex_prefix(hash) {
        assert(hash =~= "0x"@ + digits);
    } else {
        assert(hash =~= digits);
    }
}

/// Normalizing a hash twice is normalizing it once.
pub proof fn lemma_normalizing_is_idempotent(hash: Seq<char>)
    ensures
        text::has_hex_prefix(normalized(hash)),
        normalized(normalized(hash)) == normalized(hash),
{
    reveal_strlit("0x");
}

/// A reply to a query for details holds the details of every input.
pub proof fn lemma_replies_with_details_are_complete(
    tx: Transaction,
    tx_hashes: Seq<Seq<char>>,
    fetched: Result<Vec<Transaction>, Error>,
    reply: Reply,
)
    requires
        concludes_lookup(tx, tx_hashes, fetched, reply),
    ensures
        reply matches Ok(replied) ==> forall|i: int|
            0 <= i < replied.inputs@.len() ==> enrichment::is_detailed(
                #[trigger] replied.inputs@[i],
            ),
{
    if let Ok(source_txs) = fetched {
        enrichment::lemma_enriched_inputs_are_detailed(
            tx.inputs@,
            enrichment::source_map(tx_hashes, source_txs@),
        );
    }
}

} // verus!
