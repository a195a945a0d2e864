//! Enrichment: copying into each input what the output that it spends holds.

use crate::error::{Error, ErrorView};
use crate::text;
use crate::types::{Input, Output, Transaction};
use vstd::hash_map::StringHashMap;
use vstd::prelude::*;

verus! {

/// The texts of a list of strings.
pub open spec fn texts(strings: Seq<String>) -> Seq<Seq<char>> {
    strings.map_values(|s: String| s@)
}

/// The hashes of the transactions whose outputs the inputs spend, one per input.
pub open spec fn spent_hashes(inputs: Seq<Input>) -> Seq<Seq<char>> {
    inputs.map_values(|input: Input| input.previous_output.tx_hash@)
}

/// A list without its repetitions, in the order of first occurrence.
pub open spec fn distinct(list: Seq<Seq<char>>) -> Seq<Seq<char>>
    decreases list.len(),
{
    if list.len() == 0 {
        seq![]
    } else {
        let earlier = distinct(list.drop_last());
        if earlier.contains(list.last()) {
            earlier
        } else {
            earlier.push(list.last())
        }
    }
}

fn contains_text(strings: &Vec<String>, s: &String) -> (res: bool)
    ensures
        res == texts(strings@).contains(s@),
{
    let mut i: usize = 0;
    while i < strings.len()
        invariant
            i <= strings.len(),
            forall|j: int| 0 <= j < i ==> texts(strings@)[j] != s@,
        decreases strings.len() - i,
    {
        if strings[i] == *s {
            assert(texts(strings@)[i as int] == s@);
            return true;
        }
        i = i + 1;
    }
    false
}

/// The transactions to ask the node for before a transaction can be enriched:
/// each one that an input spends from, once.
pub fn source_tx_hashes(tx: &Transaction) -> (res: Vec<String>)
    ensures
        texts(res@) == distinct(spent_hashes(tx.inputs@)),
{
    let mut res: Vec<String> = Vec::new();
    let ghost hashes = spent_hashes(tx.inputs@);
    let mut i: usize = 0;
    assert(texts(res@) =~= distinct(hashes.take(0)));
    while i < tx.inputs.len()
        invariant
            i <= tx.inputs.len(),
            hashes == spent_hashes(tx.inputs@),
            texts(res@) == distinct(hashes.take(i as int)),
        decreases tx.inputs.len() - i,
    {
        let hash = &tx.inputs[i].previous_output.tx_hash;
        assert(hashes.take(i + 1).drop_last() =~= hashes.take(i as int));
        let ghost before = res@;
        if !contains_text(&res, hash) {
            res.push(hash.clone());
            assert(texts(res@) =~= texts(before).push(hash@));
        }
        i = i + 1;
    }
    assert(hashes.take(i as int) =~= hashes);
    res
}

/// What the node's answers say of each transaction: the answer at a position
/// belongs to the hash at that position. Of a hash that occurs twice the later
/// answer counts; hashes and answers beyond the shorter list are left out.
pub open spec fn source_map(hashes: Seq<Seq<char>>, answers: Seq<Transaction>) -> Map<
    Seq<char>,
    Transaction,
>
    decreases hashes.len(),
{
    if hashes.len() == 0 {
        Map::empty()
    } else if hashes.len() > answers.len() {
        source_map(hashes.drop_last(), answers)
    } else {
        source_map(hashes.drop_last(), answers).insert(
            hashes.last(),
            answers[hashes.len() - 1],
        )
    }
}

/// An input that holds what the output that it spends holds.
pub open spec fn detailed(input: Input, output: Output) -> Input {
    Input {
        capacity: Some(output.capacity),
        lock: Some(output.lock),
        type_script: output.type_script,
        ..input
    }
}

/// Whether an input says how much it spends and who may spend it.
pub open spec fn is_detailed(input: Input) -> bool {
    input.capacity is Some && input.lock is Some
}

/// The error for an output that its transaction does not have.
pub open spec fn missing_output(position: nat, tx_hash: Seq<char>) -> ErrorView {
    ErrorView::TxProcessing(
        "Output index "@ + text::decimal(position) + " not found in transaction "@ + tx_hash,
    )
}

/// The error for a transaction that the node did not send.
pub open spec fn missing_source(tx_hash: Seq<char>) -> ErrorView {
    ErrorView::TxProcessing("Source transaction "@ + tx_hash + " not found"@)
}

/// The position that an index writes in hexadecimal, behind any number of `0x`,
/// or the error that says why it writes none.
pub open spec fn position(index: Seq<char>) -> Result<nat, ErrorView> {
    let digits = text::without_hex_prefixes(index);
    match text::hex_number(digits) {
        Some(n) => if n <= usize::MAX {
            Ok(n)
        } else {
            Err(ErrorView::TxProcessing(text::hex_rejection(digits, usize::MAX as nat)))
        },
        None => Err(ErrorView::TxProcessing(text::hex_rejection(digits, usize::MAX as nat))),
    }
}

/// The output at a position, or the error that says why there is none.
pub open spec fn output_at(
    outputs: Seq<Output>,
    tx_hash: Seq<char>,
    position: Result<nat, ErrorView>,
) -> Result<Output, ErrorView> {
    match position {
        Ok(n) => if n < outputs.len() {
            Ok(outputs[n as int])
        } else {
            Err(missing_output(n, tx_hash))
        },
        Err(e) => Err(e),
    }
}

/// An input enriched from the transactions that the node sent, or the error that
/// says why it cannot be.
pub open spec fn filled(input: Input, sources: Map<Seq<char>, Transaction>) -> Result<
    Input,
    ErrorView,
> {
    let tx_hash = input.previous_output.tx_hash@;
    if !sources.contains_key(tx_hash) {
        Err(missing_source(tx_hash))
    } else {
        match output_at(
            sources[tx_hash].outputs@,
            tx_hash,
            position(input.previous_output.index@),
        ) {
            Ok(output) => Ok(detailed(input, output)),
            Err(e) => Err(e),
        }
    }
}

/// All inputs enriched, or the error of the first one that cannot be.
pub open spec fn all_filled(inputs: Seq<Input>, sources: Map<Seq<char>, Transaction>) -> Result<
    Seq<Input>,
    ErrorView,
>
    decreases inputs.len(),
{
    if inputs.len() == 0 {
        Ok(seq![])
    } else {
        match all_filled(inputs.drop_last(), sources) {
            Ok(earlier) => match filled(inputs.last(), sources) {
                Ok(input) => Ok(earlier.push(input)),
                Err(e) => Err(e),
            },
            Err(e) => Err(e),
        }
    }
}

/// Whether one transaction is another with these inputs in place of its own.
pub open spec fn with_inputs(tx: Transaction, inputs: Seq<Input>, res: Transaction) -> bool {
    &&& res.inputs@ == inputs
    &&& res.hash == tx.hash
    &&& res.outputs == tx.outputs
    &&& res.cell_deps == tx.cell_deps
    &&& res.header_deps == tx.header_deps
    &&& res.outputs_data == tx.outputs_data
    &&& res.version == tx.version
    &&& res.witnesses == tx.witnesses
}

/// Whether a result is what enriching a transaction from these sources gives.
pub open spec fn enriches(
    tx: Transaction,
    sources: Map<Seq<char>, Transaction>,
    res: Result<Transaction, Error>,
) -> bool {
    match all_filled(tx.inputs@, sources) {
        Ok(inputs) => res is Ok && with_inputs(tx, inputs, res->Ok_0),
        Err(e) => res is Err && res->Err_0@ == e,
    }
}

/// The output that an input spends, given what reading the input's index gave.
pub fn spent_output<'a>(
    source: &'a Transaction,
    tx_hash: &str,
    index: Result<usize, String>,
) -> (res: Result<&'a Output, Error>)
    ensures
        match index {
            Ok(n) => if n < source.outputs@.len() {
                res is Ok && *res->Ok_0 == source.outputs@[n as int]
            } else {
                res is Err && res->Err_0@ == missing_output(n as nat, tx_hash@)
            },
            Err(e) => res is Err && res->Err_0@ == ErrorView::TxProcessing(e@),
        },
{
    match index {
        Ok(n) => {
            if n < source.outputs.len() {
                Ok(&source.outputs[n])
            } else {
                let message = "Output index ".to_string().concat(
                    text::decimal_text(n as u64).as_str(),
                ).concat(" not found in transaction ").concat(tx_hash);
                Err(Error::TxProcessing(message))
            }
        },
        Err(e) => Err(Error::TxProcessing(e)),
    }
}

/// Checks that every input says how much it spends and who may spend it; names the
/// first that does not.
pub fn verify_inputs(inputs: &Vec<Input>) -> (res: Result<(), Error>)
    ensures
        res is Ok <==> forall|i: int|
            0 <= i < inputs@.len() ==> (#[trigger] inputs@[i]).capacity is Some
                && inputs@[i].lock is Some,
        res is Err ==> exists|i: int|
            #![trigger inputs@[i]]
            {
                &&& 0 <= i < inputs@.len()
                &&& inputs@[i].capacity is None || inputs@[i].lock is None
                &&& forall|j: int|
                    0 <= j < i ==> (#[trigger] inputs@[j]).capacity is Some
                        && inputs@[j].lock is Some
                &&& res->Err_0 matches Error::TxProcessing(words) && words@
                    == "Failed to process input at index "@ + text::decimal(i as nat)
            },
{
    let mut i: usize = 0;
    while i < inputs.len()
        invariant
            i <= inputs.len(),
            forall|j: int| 0 <= j < i ==> is_detailed(#[trigger] inputs@[j]),
        decreases inputs.len() - i,
    {
        if inputs[i].capacity.is_none() || inputs[i].lock.is_none() {
            let message = "Failed to process input at index ".to_string().concat(
                text::decimal_text(i as u64).as_str(),
            );
            assert(inputs@[i as int].capacity is None || inputs@[i as int].lock is None);
            return Err(Error::TxProcessing(message));
        }
        i = i + 1;
    }
    Ok(())
}

/// Enriches a transaction from the node's answers for a list of hashes, in
/// whatever order the hashes were asked for.
pub fn enrich_from_sources(
    tx: Transaction,
    tx_hashes: &Vec<String>,
    source_txs: &Vec<Transaction>,
) -> (res: Result<Transaction, Error>)
    ensures
        enriches(tx, source_map(texts(tx_hashes@), source_txs@), res),
{
    let mut tx_map: StringHashMap<usize> = StringHashMap::new();
    let ghost hashes = texts(tx_hashes@);
    let ghost sources = source_map(hashes, source_txs@);
    let mut k: usize = 0;
    while k < tx_hashes.len() && k < source_txs.len()
        invariant
            k <= tx_hashes.len(),
            k <= source_txs.len(),
            hashes == texts(tx_hashes@),
            forall|h: Seq<char>|
                #![trigger tx_map@.contains_key(h)]
                tx_map@.contains_key(h) == source_map(hashes.take(k as int), source_txs@).contains_key(
                    h,
                ),
            forall|h: Seq<char>| #[trigger]
                tx_map@.contains_key(h) ==> {
                    &&& tx_map@[h] < source_txs.len()
                    &&& source_txs@[tx_map@[h] as int] == source_map(
                        hashes.take(k as int),
                        source_txs@,
                    )[h]
                },
        decreases tx_hashes.len() - k,
    {
        assert(hashes.take(k + 1).drop_last() =~= hashes.take(k as int));
        tx_map.insert(tx_hashes[k].clone(), k);
        k = k + 1;
    }
    proof {
        lemma_unanswered_hashes_are_left_out(hashes, source_txs@, k as nat);
    }

    let mut enriched = tx;
    let mut i: usize = 0;
    assert(tx.inputs@.take(0) =~= seq![]);
    while i < enriched.inputs.len()
        invariant
            i <= enriched.inputs.len() == tx.inputs@.len(),
            with_inputs(tx, enriched.inputs@, enriched),
            all_filled(tx.inputs@.take(i as int), sources) == Ok::<Seq<Input>, ErrorView>(
                enriched.inputs@.take(i as int),
            ),
            forall|j: int| i <= j < tx.inputs@.len() ==> enriched.inputs@[j] == tx.inputs@[j],
            hashes == texts(tx_hashes@),
            sources == source_map(hashes, source_txs@),
            forall|h: Seq<char>| #[trigger] tx_map@.contains_key(h) == sources.contains_key(h),
            forall|h: Seq<char>| #[trigger]
                tx_map@.contains_key(h) ==> {
                    &&& tx_map@[h] < source_txs.len()
                    &&& source_txs@[tx_map@[h] as int] == sources[h]
                },
        decreases tx.inputs@.len() - i,
    {
        let ghost before = enriched.inputs@;
        proof {
            assert(tx.inputs@.take(i + 1).drop_last() =~= tx.inputs@.take(i as int));
            lemma_a_failure_ends_the_enrichment(tx.inputs@, sources, (i + 1) as nat);
        }
        let tx_hash = enriched.inputs[i].previous_output.tx_hash.clone();
        match tx_map.get(tx_hash.as_str()) {
            Some(at) => {
                let index = text::parse_hex(
                    text::trim_hex_prefixes(enriched.inputs[i].previous_output.index.as_str()),
                );
                match spent_output(&source_txs[*at], tx_hash.as_str(), index) {
                    Ok(output) => {
                        let input = &mut enriched.inputs[i];
                        input.capacity = Some(output.capacity.clone());
                        input.lock = Some(output.lock.clone());
                        input.type_script = output.type_script.clone();
                        assert(enriched.inputs@.take(i + 1) =~= before.take(i as int).push(
                            enriched.inputs@[i as int],
                        ));
                    },
                    Err(e) => {
                        return Err(e);
                    },
                }
            },
            None => {
                let message = "Source transaction ".to_string().concat(tx_hash.as_str()).concat(
                    " not found",
                );
                return Err(Error::TxProcessing(message));
            },
        }
        i = i + 1;
    }
    proof {
        assert(tx.inputs@.take(i as int) =~= tx.inputs@);
        assert(enriched.inputs@.take(i as int) =~= enriched.inputs@);
        lemma_each_input_is_filled(tx.inputs@, sources);
    }
    match verify_inputs(&enriched.inputs) {
        Ok(_) => Ok(enriched),
        Err(e) => Err(e),
    }
}

/// What to do next to enrich a transaction.
pub enum EnrichmentStep {
    /// Ask the node for these transactions, then call `enrich_transaction`.
    Fetch { tx: Transaction, tx_hashes: Vec<String> },
    /// There is nothing to ask for.
    Finished(Transaction),
}

/// Begins to enrich a transaction.
pub fn start_enrichment(tx: Transaction) -> (res: EnrichmentStep)
    ensures
        if tx.inputs@.len() == 0 {
            res == EnrichmentStep::Finished(tx)
        } else {
            res matches EnrichmentStep::Fetch { tx: kept, tx_hashes } && kept == tx && texts(
                tx_hashes@,
            ) == distinct(spent_hashes(tx.inputs@))
        },
{
    let tx_hashes = source_tx_hashes(&tx);
    proof {
        lemma_distinct(spent_hashes(tx.inputs@));
        if tx.inputs@.len() > 0 {
            assert(spent_hashes(tx.inputs@).contains(spent_hashes(tx.inputs@)[0]));
        } else {
            assert(texts(tx_hashes@).len() == 0);
        }
    }
    if tx_hashes.is_empty() {
        EnrichmentStep::Finished(tx)
    } else {
        EnrichmentStep::Fetch { tx, tx_hashes }
    }
}

/// Enriches a transaction with what came of asking the node for a list of
/// transactions.
pub fn enrich_transaction(
    tx: Transaction,
    tx_hashes: &Vec<String>,
    fetched: Result<Vec<Transaction>, Error>,
) -> (res: Result<Transaction, Error>)
    ensures
        match fetched {
            Ok(source_txs) => enriches(tx, source_map(texts(tx_hashes@), source_txs@), res),
            Err(e) => res == Err::<Transaction, Error>(e),
        },
{
    match fetched {
        Ok(source_txs) => enrich_from_sources(tx, tx_hashes, &source_txs),
        Err(e) => Err(e),
    }
}

/// The node is asked for each transaction once, and for every one that an input
/// spends from.
pub proof fn lemma_distinct(list: Seq<Seq<char>>)
    ensures
        distinct(list).no_duplicates(),
        forall|s: Seq<char>| #[trigger] distinct(list).contains(s) <==> list.contains(s),
        distinct(list).len() <= list.len(),
    decreases list.len(),
{
    if list.len() > 0 {
        let earlier = distinct(list.drop_last());
        lemma_distinct(list.drop_last());
        assert forall|s: Seq<char>| #[trigger] distinct(list).contains(s) <==> list.contains(s) by {
            if list.contains(s) {
                let i = choose|i: int| 0 <= i < list.len() && list[i] == s;
                if i < list.len() - 1 {
                    assert(list.drop_last()[i] == s);
                    assert(earlier.contains(s));
                    let j = choose|j: int| 0 <= j < earlier.len() && earlier[j] == s;
                    assert(distinct(list)[j] == s);
                } else if !earlier.contains(s) {
                    assert(distinct(list)[earlier.len() as int] == s);
                }
            }
            if distinct(list).contains(s) {
                let j = choose|j: int| 0 <= j < distinct(list).len() && distinct(list)[j] == s;
                if j < earlier.len() {
                    assert(earlier.contains(s));
                    let i = choose|i: int| 0 <= i < list.drop_last().len() && list.drop_last()[i]
                        == s;
                    assert(list[i] == s);
                } else {
                    assert(list[list.len() - 1] == s);
                }
            }
        }
    }
}

/// Whether a list of answers is what the node holds for a list of hashes,
/// position by position.
pub open spec fn answers_match(
    node: Map<Seq<char>, Transaction>,
    hashes: Seq<Seq<char>>,
    answers: Seq<Transaction>,
) -> bool {
    &&& answers.len() == hashes.len()
    &&& forall|i: int|
        #![trigger hashes[i]]
        0 <= i < hashes.len() ==> node.contains_key(hashes[i]) && answers[i] == node[hashes[i]]
}

/// Answers in the order of the questions leave exactly what the node holds for
/// the hashes that were asked for.
pub proof fn lemma_matching_answers(
    node: Map<Seq<char>, Transaction>,
    hashes: Seq<Seq<char>>,
    answers: Seq<Transaction>,
)
    requires
        answers_match(node, hashes, answers),
    ensures
        forall|h: Seq<char>| #[trigger]
            source_map(hashes, answers).contains_key(h) <==> hashes.contains(h),
        forall|h: Seq<char>|
            hashes.contains(h) ==> #[trigger] source_map(hashes, answers)[h] == node[h],
{
    lemma_matching_answers_up_to(node, hashes, answers, hashes.len());
    assert(hashes.take(hashes.len() as int) =~= hashes);
}

proof fn lemma_matching_answers_up_to(
    node: Map<Seq<char>, Transaction>,
    hashes: Seq<Seq<char>>,
    answers: Seq<Transaction>,
    k: nat,
)
    requires
        answers_match(node, hashes, answers),
        k <= hashes.len(),
    ensures
        forall|h: Seq<char>| #[trigger]
            source_map(hashes.take(k as int), answers).contains_key(h) <==> hashes.take(
                k as int,
            ).contains(h),
        forall|h: Seq<char>|
            hashes.take(k as int).contains(h) ==> #[trigger] source_map(
                hashes.take(k as int),
                answers,
            )[h] == node[h],
    decreases k,
{
    if k > 0 {
        let before = hashes.take(k - 1);
        let asked = hashes.take(k as int);
        lemma_matching_answers_up_to(node, hashes, answers, (k - 1) as nat);
        assert(asked.drop_last() =~= before);
        assert(source_map(asked, answers) == source_map(before, answers).insert(
            hashes[k - 1],
            answers[k - 1],
        ));
        assert forall|h: Seq<char>|
            (#[trigger] source_map(asked, answers).contains_key(h) <==> asked.contains(h)) && (
            asked.contains(h) ==> source_map(asked, answers)[h] == node[h]) by {
            assert(source_map(before, answers).contains_key(h) <==> before.contains(h));
            if asked.contains(h) {
                let i = choose|i: int| 0 <= i < asked.len() && asked[i] == h;
                if i < k - 1 {
                    assert(before[i] == h);
                    assert(source_map(before, answers)[h] == node[h]);
                }
            }
            if before.contains(h) {
                let i = choose|i: int| 0 <= i < before.len() && before[i] == h;
                assert(asked[i] == h);
            }
            assert(asked[k - 1] == hashes[k - 1]);
        }
    }
}

/// The order in which the node was asked for the same transactions makes no
/// difference.
pub proof fn lemma_order_of_questions_is_irrelevant(
    inputs: Seq<Input>,
    node: Map<Seq<char>, Transaction>,
    hashes: Seq<Seq<char>>,
    answers: Seq<Transaction>,
    other_hashes: Seq<Seq<char>>,
    other_answers: Seq<Transaction>,
)
    requires
        answers_match(node, hashes, answers),
        answers_match(node, other_hashes, other_answers),
        forall|h: Seq<char>| #[trigger] hashes.contains(h) <==> other_hashes.contains(h),
    ensures
        all_filled(inputs, source_map(hashes, answers)) == all_filled(
            inputs,
            source_map(other_hashes, other_answers),
        ),
{
    lemma_matching_answers(node, hashes, answers);
    lemma_matching_answers(node, other_hashes, other_answers);
    let sources = source_map(hashes, answers);
    let others = source_map(other_hashes, other_answers);
    assert forall|h: Seq<char>| sources.contains_key(h) implies sources[h] == others[h] by {
        assert(hashes.contains(h));
    }
    assert(sources =~= others);
}

/// The output of the node that an input spends, if its index writes a position
/// and there is an output at it.
pub open spec fn spent(input: Input, node: Map<Seq<char>, Transaction>) -> Option<Output> {
    let outputs = node[input.previous_output.tx_hash@].outputs@;
    match position(input.previous_output.index@) {
        Ok(n) => if n < outputs.len() {
            Some(outputs[n as int])
        } else {
            None
        },
        Err(_) => None,
    }
}

/// When the node answers every question, enrichment succeeds exactly if each
/// input names an output that exists, and each input then holds what that output
/// holds.
pub proof fn lemma_enrichment_copies_the_spent_outputs(
    inputs: Seq<Input>,
    node: Map<Seq<char>, Transaction>,
    answers: Seq<Transaction>,
)
    requires
        answers_match(node, distinct(spent_hashes(inputs)), answers),
    ensures
        ({
            let res = all_filled(inputs, source_map(distinct(spent_hashes(inputs)), answers));
            &&& res is Ok <==> forall|i: int|
                0 <= i < inputs.len() ==> spent(#[trigger] inputs[i], node) is Some
            &&& res matches Ok(filled_inputs) ==> {
                &&& filled_inputs.len() == inputs.len()
                &&& forall|i: int|
                    0 <= i < inputs.len() ==> #[trigger] filled_inputs[i] == detailed(
                        inputs[i],
                        spent(inputs[i], node)->0,
                    )
            }
        }),
{
    let hashes = distinct(spent_hashes(inputs));
    let sources = source_map(hashes, answers);
    lemma_distinct(spent_hashes(inputs));
    lemma_matching_answers(node, hashes, answers);
    lemma_each_input_is_filled(inputs, sources);
    assert forall|i: int| 0 <= i < inputs.len() implies (filled(#[trigger] inputs[i], sources) is Ok
        <==> spent(inputs[i], node) is Some) && (spent(inputs[i], node) matches Some(output)
        ==> filled(inputs[i], sources) == Ok::<Input, ErrorView>(detailed(inputs[i], output))) by {
        assert(spent_hashes(inputs).contains(spent_hashes(inputs)[i]));
        assert(hashes.contains(spent_hashes(inputs)[i]));
    }
    lemma_first_failure(inputs, sources);
    if let Ok(res) = all_filled(inputs, sources) {
        assert forall|i: int| 0 <= i < inputs.len() implies spent(
            #[trigger] inputs[i],
            node,
        ) is Some by {
            assert(filled(inputs[i], sources) == Ok::<Input, ErrorView>(res[i]));
        }
    }
}

/// Where enrichment fails, it fails with the error of the first input that
/// cannot be enriched.
pub proof fn lemma_first_failure(inputs: Seq<Input>, sources: Map<Seq<char>, Transaction>)
    ensures
        all_filled(inputs, sources) matches Err(e) ==> exists|i: int|
            #![trigger inputs[i]]
            {
                &&& 0 <= i < inputs.len()
                &&& filled(inputs[i], sources) == Err::<Input, ErrorView>(e)
                &&& forall|j: int| 0 <= j < i ==> filled(#[trigger] inputs[j], sources) is Ok
            },
    decreases inputs.len(),
{
    if inputs.len() > 0 {
        let earlier = inputs.drop_last();
        lemma_first_failure(earlier, sources);
        lemma_each_input_is_filled(earlier, sources);
        if let Err(e) = all_filled(inputs, sources) {
            if all_filled(earlier, sources) is Err {
                let i = choose|i: int|
                    #![trigger earlier[i]]
                    {
                        &&& 0 <= i < earlier.len()
                        &&& filled(earlier[i], sources) == Err::<Input, ErrorView>(e)
                        &&& forall|j: int|
                            0 <= j < i ==> filled(#[trigger] earlier[j], sources) is Ok
                    };
                assert(inputs[i] == earlier[i]);
                assert forall|j: int| 0 <= j < i implies filled(
                    #[trigger] inputs[j],
                    sources,
                ) is Ok by {
                    assert(inputs[j] == earlier[j]);
                }
            } else {
                let done = all_filled(earlier, sources)->Ok_0;
                assert forall|j: int| 0 <= j < inputs.len() - 1 implies filled(
                    #[trigger] inputs[j],
                    sources,
                ) is Ok by {
                    assert(inputs[j] == earlier[j]);
                    assert(filled(earlier[j], sources) == Ok::<Input, ErrorView>(done[j]));
                }
                assert(inputs[inputs.len() - 1] == inputs.last());
            }
        }
    }
}

/// Every input of an enriched transaction says how much it spends and who may
/// spend it, and still spends the same output under the same condition.
pub proof fn lemma_enriched_inputs_are_detailed(
    inputs: Seq<Input>,
    sources: Map<Seq<char>, Transaction>,
)
    ensures
        all_filled(inputs, sources) matches Ok(res) ==> {
            &&& res.len() == inputs.len()
            &&& forall|i: int|
                #![trigger res[i]]
                0 <= i < res.len() ==> {
                    &&& is_detailed(res[i])
                    &&& res[i].previous_output == inputs[i].previous_output
                    &&& res[i].since == inputs[i].since
                }
        },
{
    lemma_each_input_is_filled(inputs, sources);
}

/// Enriching an enriched transaction from the same sources changes nothing.
pub proof fn lemma_enrichment_is_idempotent(
    inputs: Seq<Input>,
    sources: Map<Seq<char>, Transaction>,
)
    ensures
        all_filled(inputs, sources) matches Ok(res) ==> all_filled(res, sources) == Ok::<
            Seq<Input>,
            ErrorView,
        >(res),
    decreases inputs.len(),
{
    if inputs.len() > 0 {
        lemma_enrichment_is_idempotent(inputs.drop_last(), sources);
        if let Ok(res) = all_filled(inputs, sources) {
            let earlier = all_filled(inputs.drop_last(), sources)->Ok_0;
            assert(res.drop_last() =~= earlier);
            assert(filled(res.last(), sources) == Ok::<Input, ErrorView>(res.last()));
        }
    }
}

/// When the node answers fewer questions than it was asked, enrichment fails:
/// no input is left without its details.
pub proof fn lemma_a_missing_answer_fails_the_enrichment(
    inputs: Seq<Input>,
    answers: Seq<Transaction>,
)
    requires
        answers.len() < distinct(spent_hashes(inputs)).len(),
    ensures
        all_filled(inputs, source_map(distinct(spent_hashes(inputs)), answers)) is Err,
{
    let hashes = distinct(spent_hashes(inputs));
    let sources = source_map(hashes, answers);
    lemma_distinct(spent_hashes(inputs));
    lemma_unanswered_hashes_are_left_out(hashes, answers, answers.len());
    lemma_sources_were_asked_for(hashes.take(answers.len() as int), answers);
    assert(hashes.contains(hashes.last()));
    let i = choose|i: int|
        0 <= i < spent_hashes(inputs).len() && spent_hashes(inputs)[i] == hashes.last();
    assert(!sources.contains_key(hashes.last()));
    assert(filled(inputs[i], sources) is Err);
    lemma_each_input_is_filled(inputs, sources);
    if let Ok(res) = all_filled(inputs, sources) {
        assert(filled(inputs[i], sources) == Ok::<Input, ErrorView>(res[i]));
    }
}

proof fn lemma_sources_were_asked_for(hashes: Seq<Seq<char>>, answers: Seq<Transaction>)
    ensures
        forall|h: Seq<char>| #[trigger]
            source_map(hashes, answers).contains_key(h) ==> hashes.contains(h),
    decreases hashes.len(),
{
    if hashes.len() > 0 {
        lemma_sources_were_asked_for(hashes.drop_last(), answers);
        assert forall|h: Seq<char>| #[trigger]
            source_map(hashes, answers).contains_key(h) implies hashes.contains(h) by {
            if source_map(hashes.drop_last(), answers).contains_key(h) {
                let i = choose|i: int|
                    0 <= i < hashes.drop_last().len() && hashes.drop_last()[i] == h;
                assert(hashes[i] == h);
            } else {
                assert(hashes[hashes.len() - 1] == h);
            }
        }
    }
}

/// Enrichment handles each input by itself: where it succeeds, the result holds
/// as many inputs, in the same order, and each one is what that input alone
/// would give.
pub proof fn lemma_each_input_is_filled(inputs: Seq<Input>, sources: Map<Seq<char>, Transaction>)
    ensures
        match all_filled(inputs, sources) {
            Ok(res) => {
                &&& res.len() == inputs.len()
                &&& forall|i: int|
                    0 <= i < inputs.len() ==> filled(inputs[i], sources) == Ok::<Input, ErrorView>(
                        #[trigger] res[i],
                    )
            },
            Err(_) => true,
        },
    decreases inputs.len(),
{
    if inputs.len() > 0 {
        lemma_each_input_is_filled(inputs.drop_last(), sources);
    }
}

proof fn lemma_a_failure_ends_the_enrichment(
    inputs: Seq<Input>,
    sources: Map<Seq<char>, Transaction>,
    k: nat,
)
    requires
        k <= inputs.len(),
    ensures
        all_filled(inputs.take(k as int), sources) matches Err(e) ==> all_filled(inputs, sources)
            == Err::<Seq<Input>, ErrorView>(e),
    decreases inputs.len(),
{
    if k < inputs.len() {
        lemma_a_failure_ends_the_enrichment(inputs.drop_last(), sources, k);
        assert(inputs.drop_last().take(k as int) =~= inputs.take(k as int));
    } else {
        assert(inputs.take(k as int) =~= inputs);
    }
}

proof fn lemma_unanswered_hashes_are_left_out(
    hashes: Seq<Seq<char>>,
    answers: Seq<Transaction>,
    k: nat,
)
    requires
        k <= hashes.len(),
        k == hashes.len() || k == answers.len(),
    ensures
        source_map(hashes, answers) == source_map(hashes.take(k as int), answers),
    decreases hashes.len(),
{
    if k < hashes.len() {
        lemma_unanswered_hashes_are_left_out(hashes.drop_last(), answers, k);
        assert(hashes.drop_last().take(k as int) =~= hashes.take(k as int));
    } else {
        assert(hashes.take(k as int) =~= hashes);
    }
}

} // verus!
