//! Laws on enrichment.

use crate::enrichment;
use crate::enrichment::EnrichmentStep;
use crate::error::{Error, ErrorView};
use crate::text;
use crate::types::{Input, Output, Transaction};
use vstd::prelude::*;

verus! {

/// The node is asked for every transaction that an input spends from, for no
/// other, and for none twice.
pub proof fn law_sources_are_asked_for_once(tx: &Transaction, res: Vec<String>)
    requires
        call_ensures(enrichment::source_tx_hashes, (tx,), res),
    ensures
        forall|i: int|
            0 <= i < tx.inputs@.len() ==> exists|k: int|
                0 <= k < res@.len() && #[trigger] res@[k]@ == (
                #[trigger] tx.inputs@[i]).previous_output.tx_hash@,
        forall|k: int|
            0 <= k < res@.len() ==> exists|i: int|
                0 <= i < tx.inputs@.len() && (
                #[trigger] tx.inputs@[i]).previous_output.tx_hash@ == (#[trigger] res@[k])@,
        forall|j: int, k: int|
            0 <= j < k < res@.len() ==> (#[trigger] res@[j])@ != (#[trigger] res@[k])@,
{
    let hashes = enrichment::spent_hashes(tx.inputs@);
    let asked = enrichment::texts(res@);
    enrichment::lemma_distinct(hashes);
    assert forall|i: int| 0 <= i < tx.inputs@.len() implies exists|k: int|
        0 <= k < res@.len() && #[trigger] res@[k]@ == (
        #[trigger] tx.inputs@[i]).previous_output.tx_hash@ by {
        assert(hashes[i] == tx.inputs@[i].previous_output.tx_hash@);
        assert(hashes.contains(hashes[i]));
        assert(asked.contains(hashes[i]));
        let k = choose|k: int| 0 <= k < asked.len() && asked[k] == hashes[i];
        assert(res@[k]@ == hashes[i]);
    }
    assert forall|k: int| 0 <= k < res@.len() implies exists|i: int|
        0 <= i < tx.inputs@.len() && (#[trigger] tx.inputs@[i]).previous_output.tx_hash@ == (
        #[trigger] res@[k])@ by {
        assert(asked[k] == res@[k]@);
        assert(asked.contains(asked[k]));
        assert(hashes.contains(asked[k]));
        let i = choose|i: int| 0 <= i < hashes.len() && hashes[i] == asked[k];
        assert(tx.inputs@[i].previous_output.tx_hash@ == res@[k]@);
    }
    assert forall|j: int, k: int| 0 <= j < k < res@.len() implies (#[trigger] res@[j])@ != (
    #[trigger] res@[k])@ by {
        assert(asked[j] == res@[j]@ && asked[k] == res@[k]@);
    }
}

/// An output is the one at the position that was read; a position that was not
/// read, or at which there is none, is reported.
pub proof fn law_spent_output(
    source: &Transaction,
    tx_hash: &str,
    index: Result<usize, String>,
    res: Result<&Output, Error>,
)
    requires
        call_ensures(enrichment::spent_output, (source, tx_hash, index), res),
    ensures
        match index {
            Ok(n) => if n < source.outputs@.len() {
                res matches Ok(output) && *output == source.outputs@[n as int]
            } else {
                res matches Err(Error::TxProcessing(words)) && words@ == "Output index "@
                    + text::decimal(n as nat) + " not found in transaction "@ + tx_hash@
            },
            Err(reason) => res matches Err(Error::TxProcessing(words)) && words@ == reason@,
        },
{
}

proof fn lemma_last_answer(hashes: Seq<Seq<char>>, answers: Seq<Transaction>, k: int)
    requires
        0 <= k < hashes.len(),
        k < answers.len(),
        forall|j: int|
            k < j < hashes.len() && j < answers.len() ==> #[trigger] hashes[j] != hashes[k],
    ensures
        enrichment::source_map(hashes, answers).contains_key(hashes[k]),
        enrichment::source_map(hashes, answers)[hashes[k]] == answers[k],
    decreases hashes.len(),
{
    if k < hashes.len() - 1 {
        let earlier = hashes.drop_last();
        assert forall|j: int| k < j < earlier.len() && j < answers.len() implies
            #[trigger] earlier[j] != earlier[k] by {
            assert(hashes[j] == earlier[j]);
        }
        lemma_last_answer(earlier, answers, k);
        assert(hashes[hashes.len() - 1] == hashes.last());
    }
}

proof fn lemma_no_answer(hashes: Seq<Seq<char>>, answers: Seq<Transaction>, h: Seq<char>)
    requires
        forall|j: int| 0 <= j < hashes.len() && j < answers.len() ==> #[trigger] hashes[j] != h,
    ensures
        !enrichment::source_map(hashes, answers).contains_key(h),
    decreases hashes.len(),
{
    if hashes.len() > 0 {
        let earlier = hashes.drop_last();
        assert forall|j: int| 0 <= j < earlier.len() && j < answers.len() implies
            #[trigger] earlier[j] != h by {
            assert(hashes[j] == earlier[j]);
        }
        lemma_no_answer(earlier, answers, h);
        assert(hashes[hashes.len() - 1] == hashes.last());
    }
}

/// Enrichment leaves a transaction as it is but for the capacities, locks and type
/// scripts of its inputs.
pub proof fn law_enrichment_changes_details_only(
    tx: Transaction,
    tx_hashes: &Vec<String>,
    source_txs: &Vec<Transaction>,
    res: Result<Transaction, Error>,
)
    requires
        call_ensures(enrichment::enrich_from_sources, (tx, tx_hashes, source_txs), res),
        res is Ok,
    ensures
        res->Ok_0.hash == tx.hash,
        res->Ok_0.outputs == tx.outputs,
        res->Ok_0.cell_deps == tx.cell_deps,
        res->Ok_0.header_deps == tx.header_deps,
        res->Ok_0.outputs_data == tx.outputs_data,
        res->Ok_0.version == tx.version,
        res->Ok_0.witnesses == tx.witnesses,
        res->Ok_0.inputs@.len() == tx.inputs@.len(),
        forall|i: int|
            0 <= i < tx.inputs@.len() ==> {
                &&& (#[trigger] res->Ok_0.inputs@[i]).previous_output
                    == tx.inputs@[i].previous_output
                &&& res->Ok_0.inputs@[i].since == tx.inputs@[i].since
            },
{
    let sources = enrichment::source_map(enrichment::texts(tx_hashes@), source_txs@);
    enrichment::lemma_enriched_inputs_are_detailed(tx.inputs@, sources);
}

/// After a successful enrichment, each input holds the capacity, the lock and the
/// type script of the output that it spends. That is the output at the position
/// `n` that its index writes, of the last answer `k` for its transaction.
pub proof fn law_inputs_hold_the_outputs_that_they_spend(
    tx: Transaction,
    tx_hashes: &Vec<String>,
    source_txs: &Vec<Transaction>,
    res: Result<Transaction, Error>,
    i: int,
    k: int,
    n: nat,
)
    requires
        call_ensures(enrichment::enrich_from_sources, (tx, tx_hashes, source_txs), res),
        res is Ok,
        0 <= i < tx.inputs@.len(),
        0 <= k < tx_hashes@.len(),
        k < source_txs@.len(),
        tx_hashes@[k]@ == tx.inputs@[i].previous_output.tx_hash@,
        forall|j: int|
            k < j < tx_hashes@.len() && j < source_txs@.len() ==> (#[trigger] tx_hashes@[j])@
                != tx.inputs@[i].previous_output.tx_hash@,
        text::hex_number(text::without_hex_prefixes(tx.inputs@[i].previous_output.index@)) == Some(
            n,
        ),
    ensures
        n < source_txs@[k].outputs@.len(),
        res->Ok_0.inputs@[i].capacity == Some(source_txs@[k].outputs@[n as int].capacity),
        res->Ok_0.inputs@[i].lock == Some(source_txs@[k].outputs@[n as int].lock),
        res->Ok_0.inputs@[i].type_script == source_txs@[k].outputs@[n as int].type_script,
{
    let hashes = enrichment::texts(tx_hashes@);
    let sources = enrichment::source_map(hashes, source_txs@);
    assert(hashes[k] == tx_hashes@[k]@);
    assert forall|j: int| k < j < hashes.len() && j < source_txs@.len() implies #[trigger] hashes[j]
        != hashes[k] by {
        assert(hashes[j] == tx_hashes@[j]@);
    }
    lemma_last_answer(hashes, source_txs@, k);
    enrichment::lemma_each_input_is_filled(tx.inputs@, sources);
    assert(enrichment::filled(tx.inputs@[i], sources) == Ok::<Input, ErrorView>(
        res->Ok_0.inputs@[i],
    ));
}

/// Enrichment goes through the inputs in order. The inputs before `i` can be
/// enriched: the answer `at[j]` is the last one for the transaction of input `j`,
/// and it has an output at the position `positions[j]` that the input's index
/// writes. Where that holds of all inputs, the enrichment succeeds. Otherwise
/// input `i` is the first that cannot be enriched, and the error says why: there is
/// no answer for its transaction, or its index writes no position, or there is no
/// output at it.
pub proof fn law_the_first_bad_input_decides(
    tx: Transaction,
    tx_hashes: &Vec<String>,
    source_txs: &Vec<Transaction>,
    res: Result<Transaction, Error>,
    at: Seq<int>,
    positions: Seq<nat>,
    i: int,
    k: Option<int>,
)
    requires
        call_ensures(enrichment::enrich_from_sources, (tx, tx_hashes, source_txs), res),
        0 <= i <= tx.inputs@.len(),
        at.len() == positions.len() == i,
        forall|j: int|
            #![trigger tx.inputs@[j]]
            0 <= j < i ==> {
                &&& 0 <= at[j] < tx_hashes@.len()
                &&& at[j] < source_txs@.len()
                &&& tx_hashes@[at[j]]@ == tx.inputs@[j].previous_output.tx_hash@
                &&& forall|l: int|
                    at[j] < l < tx_hashes@.len() && l < source_txs@.len() ==> (
                    #[trigger] tx_hashes@[l])@ != tx.inputs@[j].previous_output.tx_hash@
                &&& text::hex_number(
                    text::without_hex_prefixes(tx.inputs@[j].previous_output.index@),
                ) == Some(positions[j])
                &&& positions[j] < source_txs@[at[j]].outputs@.len()
            },
        i < tx.inputs@.len() ==> match k {
            Some(k) => {
                &&& 0 <= k < tx_hashes@.len()
                &&& k < source_txs@.len()
                &&& tx_hashes@[k]@ == tx.inputs@[i].previous_output.tx_hash@
                &&& forall|l: int|
                    k < l < tx_hashes@.len() && l < source_txs@.len() ==> (
                    #[trigger] tx_hashes@[l])@ != tx.inputs@[i].previous_output.tx_hash@
                &&& text::hex_number(
                    text::without_hex_prefixes(tx.inputs@[i].previous_output.index@),
                ) matches Some(n) ==> n >= source_txs@[k].outputs@.len()
            },
            None => forall|l: int|
                0 <= l < tx_hashes@.len() && l < source_txs@.len() ==> (#[trigger] tx_hashes@[l])@
                    != tx.inputs@[i].previous_output.tx_hash@,
        },
    ensures
        i == tx.inputs@.len() ==> res is Ok,
        i < tx.inputs@.len() && k is None ==> (res matches Err(Error::TxProcessing(words)) && words@
            == "Source transaction "@ + tx.inputs@[i].previous_output.tx_hash@ + " not found"@),
        i < tx.inputs@.len() && k is Some ==> {
            let digits = text::without_hex_prefixes(tx.inputs@[i].previous_output.index@);
            let words = res->Err_0->TxProcessing_0@;
            &&& res is Err
            &&& res->Err_0 is TxProcessing
            &&& match text::hex_number(digits) {
                Some(n) => if n <= usize::MAX {
                    words == "Output index "@ + text::decimal(n) + " not found in transaction "@
                        + tx.inputs@[i].previous_output.tx_hash@
                } else {
                    words == text::hex_rejection(digits, usize::MAX as nat)
                },
                None => words == text::hex_rejection(digits, usize::MAX as nat),
            }
        },
{
    let hashes = enrichment::texts(tx_hashes@);
    let sources = enrichment::source_map(hashes, source_txs@);
    assert forall|l: int| 0 <= l < hashes.len() implies #[trigger] hashes[l] == tx_hashes@[l]@ by {}
    assert forall|j: int| 0 <= j < i implies enrichment::filled(
        #[trigger] tx.inputs@[j],
        sources,
    ) is Ok by {
        assert forall|l: int| at[j] < l < hashes.len() && l < source_txs@.len() implies
            #[trigger] hashes[l] != hashes[at[j]] by {
            assert(tx_hashes@[l]@ != tx.inputs@[j].previous_output.tx_hash@);
        }
        lemma_last_answer(hashes, source_txs@, at[j]);
        assert(source_txs@[at[j]].outputs.len() <= usize::MAX);
    }
    if i < tx.inputs@.len() {
        match k {
            Some(k) => {
                assert forall|l: int| k < l < hashes.len() && l < source_txs@.len() implies
                    #[trigger] hashes[l] != hashes[k] by {
                    assert(tx_hashes@[l]@ != tx.inputs@[i].previous_output.tx_hash@);
                }
                lemma_last_answer(hashes, source_txs@, k);
            },
            None => {
                assert forall|l: int| 0 <= l < hashes.len() && l < source_txs@.len() implies
                    #[trigger] hashes[l] != tx.inputs@[i].previous_output.tx_hash@ by {
                    assert(tx_hashes@[l]@ != tx.inputs@[i].previous_output.tx_hash@);
                }
                lemma_no_answer(hashes, source_txs@, tx.inputs@[i].previous_output.tx_hash@);
            },
        }
        assert(enrichment::filled(tx.inputs@[i], sources) is Err);
    }
    enrichment::lemma_first_failure(tx.inputs@, sources);
    enrichment::lemma_each_input_is_filled(tx.inputs@, sources);
    match enrichment::all_filled(tx.inputs@, sources) {
        Ok(inputs) => {
            if i < tx.inputs@.len() {
                assert(enrichment::filled(tx.inputs@[i], sources) == Ok::<Input, ErrorView>(
                    inputs[i],
                ));
            }
        },
        Err(e) => {
            let first = choose|first: int|
                #![trigger tx.inputs@[first]]
                {
                    &&& 0 <= first < tx.inputs@.len()
                    &&& enrichment::filled(tx.inputs@[first], sources) == Err::<Input, ErrorView>(e)
                    &&& forall|j: int|
                        0 <= j < first ==> enrichment::filled(
                            #[trigger] tx.inputs@[j],
                            sources,
                        ) is Ok
                };
            assert(first == i);
        },
    }
}

/// A transaction without inputs is complete. Any other is kept as it is until the
/// node has been asked for the transactions that its inputs spend from.
pub proof fn law_enrichment_begins_with_its_sources(
    tx: Transaction,
    res: EnrichmentStep,
    sources: Vec<String>,
)
    requires
        call_ensures(enrichment::start_enrichment, (tx,), res),
        call_ensures(enrichment::source_tx_hashes, (&tx,), sources),
    ensures
        tx.inputs@.len() == 0 ==> res == EnrichmentStep::Finished(tx),
        tx.inputs@.len() > 0 ==> {
            &&& res is Fetch
            &&& res->Fetch_tx == tx
            &&& res->Fetch_tx_hashes@.len() == sources@.len()
            &&& forall|k: int|
                0 <= k < sources@.len() ==> (#[trigger] res->Fetch_tx_hashes@[k])@ == sources@[k]@
        },
{
    if tx.inputs@.len() > 0 {
        let asked = res->Fetch_tx_hashes;
        assert(enrichment::texts(asked@) == enrichment::texts(sources@));
        assert(enrichment::texts(asked@).len() == asked@.len());
        assert(enrichment::texts(sources@).len() == sources@.len());
        assert forall|k: int| 0 <= k < sources@.len() implies (#[trigger] asked@[k])@
            == sources@[k]@ by {
            assert(enrichment::texts(asked@)[k] == asked@[k]@);
            assert(enrichment::texts(sources@)[k] == sources@[k]@);
        }
    }
}

/// What is fetched is what a transaction is enriched from, and a failure to fetch is
/// handed on.
pub proof fn law_what_is_fetched_enriches(
    tx: Transaction,
    tx_hashes: &Vec<String>,
    fetched: Result<Vec<Transaction>, Error>,
    res: Result<Transaction, Error>,
    direct: Result<Transaction, Error>,
)
    requires
        call_ensures(enrichment::enrich_transaction, (tx, tx_hashes, fetched), res),
        fetched is Ok ==> call_ensures(
            enrichment::enrich_from_sources,
            (tx, tx_hashes, &fetched->Ok_0),
            direct,
        ),
    ensures
        fetched matches Err(e) ==> res == Err::<Transaction, Error>(e),
        fetched is Ok ==> match (direct, res) {
            (Ok(expected), Ok(enriched)) => {
                &&& enriched.hash == expected.hash
                &&& enriched.inputs@ == expected.inputs@
                &&& enriched.outputs == expected.outputs
                &&& enriched.cell_deps == expected.cell_deps
                &&& enriched.header_deps == expected.header_deps
                &&& enriched.outputs_data == expected.outputs_data
                &&& enriched.version == expected.version
                &&& enriched.witnesses == expected.witnesses
            },
            (Err(Error::TxProcessing(expected)), Err(Error::TxProcessing(words))) => words@
                == expected@,
            _ => false,
        },
{
    if fetched is Ok {
        let sources = enrichment::source_map(enrichment::texts(tx_hashes@), fetched->Ok_0@);
        enrichment::lemma_first_failure(tx.inputs@, sources);
        if let Err(e) = enrichment::all_filled(tx.inputs@, sources) {
            assert(e is TxProcessing);
        }
    }
}

/// Where the node answers each question with the transaction that it holds, the
/// enrichment succeeds exactly if the index of each input writes the position of an
/// output. Each input then holds the capacity, the lock and the type script of that
/// output.
pub proof fn law_details_come_from_the_node(
    tx: Transaction,
    node: Map<Seq<char>, Transaction>,
    asked: Vec<String>,
    answers: Vec<Transaction>,
    res: Result<Transaction, Error>,
)
    requires
        call_ensures(
            enrichment::start_enrichment,
            (tx,),
            (EnrichmentStep::Fetch { tx, tx_hashes: asked }),
        ),
        answers@.len() == asked@.len(),
        forall|k: int|
            0 <= k < asked@.len() ==> node.contains_key((#[trigger] asked@[k])@) && answers@[k]
                == node[asked@[k]@],
        call_ensures(enrichment::enrich_transaction, (tx, &asked, Ok(answers)), res),
    ensures
        res is Ok <==> forall|i: int|
            #![trigger tx.inputs@[i]]
            0 <= i < tx.inputs@.len() ==> (text::hex_number(
                text::without_hex_prefixes(tx.inputs@[i].previous_output.index@),
            ) matches Some(n) && n < node[tx.inputs@[i].previous_output.tx_hash@].outputs@.len()),
        res is Ok ==> forall|i: int|
            #![trigger res->Ok_0.inputs@[i]]
            0 <= i < tx.inputs@.len() ==> {
                let n = text::hex_number(
                    text::without_hex_prefixes(tx.inputs@[i].previous_output.index@),
                )->0;
                let output = node[tx.inputs@[i].previous_output.tx_hash@].outputs@[n as int];
                &&& res->Ok_0.inputs@[i].capacity == Some(output.capacity)
                &&& res->Ok_0.inputs@[i].lock == Some(output.lock)
                &&& res->Ok_0.inputs@[i].type_script == output.type_script
            },
{
    let hashes = enrichment::distinct(enrichment::spent_hashes(tx.inputs@));
    let sources = enrichment::source_map(hashes, answers@);
    assert(enrichment::texts(asked@) == hashes);
    assert forall|k: int| #![trigger hashes[k]] 0 <= k < hashes.len() implies node.contains_key(
        hashes[k],
    ) && answers@[k] == node[hashes[k]] by {
        assert(hashes[k] == asked@[k]@);
    }
    enrichment::lemma_enrichment_copies_the_spent_outputs(tx.inputs@, node, answers@);
    assert forall|i: int| 0 <= i < tx.inputs@.len() implies (enrichment::spent(
        #[trigger] tx.inputs@[i],
        node,
    ) is Some <==> (text::hex_number(
        text::without_hex_prefixes(tx.inputs@[i].previous_output.index@),
    ) matches Some(n) && n < node[tx.inputs@[i].previous_output.tx_hash@].outputs@.len())) by {
        assert(node[tx.inputs@[i].previous_output.tx_hash@].outputs.len() <= usize::MAX);
    }
    if res is Ok {
        let filled = enrichment::all_filled(tx.inputs@, sources)->Ok_0;
        assert forall|i: int| #![trigger res->Ok_0.inputs@[i]] 0 <= i < tx.inputs@.len() implies ({
            let n = text::hex_number(
                text::without_hex_prefixes(tx.inputs@[i].previous_output.index@),
            )->0;
            let output = node[tx.inputs@[i].previous_output.tx_hash@].outputs@[n as int];
            &&& res->Ok_0.inputs@[i].capacity == Some(output.capacity)
            &&& res->Ok_0.inputs@[i].lock == Some(output.lock)
            &&& res->Ok_0.inputs@[i].type_script == output.type_script
        }) by {
            assert(filled[i] == enrichment::detailed(
                tx.inputs@[i],
                enrichment::spent(tx.inputs@[i], node)->0,
            ));
            assert(enrichment::spent(tx.inputs@[i], node) is Some);
        }
    }
}

} // verus!
