//! Laws on the replies to a batch.

use crate::enrichment;
use crate::error::{Error, ErrorView};
use crate::json;
use crate::replies;
use crate::replies::{BatchReader, BatchStep, BatchStepView, Reading, ReadingView, ReplyOutcome};
use crate::types::{Transaction, TransactionWrapper};
use serde_json::Value;
use vstd::prelude::*;

verus! {

/// A reply is read by its members. A `result` that is not null is handed on as it
/// is, whatever it holds. A null `result`, an `error` without a `result`, and a
/// channel that was closed are failures that name the transaction. A reply with
/// neither member says nothing.
pub proof fn law_a_reply_is_read_by_its_members(
    tx_hash: &str,
    reply: &Option<Value>,
    res: Reading,
)
    requires
        call_ensures(replies::read_reply, (tx_hash, reply), res),
    ensures
        match *reply {
            None => res matches Reading::Failed(Error::TxProcessing(words)) && words@
                == "Channel closed for transaction "@ + tx_hash@,
            Some(response) => {
                let is_object = json::json_view(response) is Object;
                let members = json::json_view(response)->Object_0;
                if is_object && members.contains_key("result"@) {
                    if json::json_view(members["result"@]) is Null {
                        res matches Reading::Failed(Error::TxProcessing(words)) && words@
                            == "Transaction not found: "@ + tx_hash@
                    } else {
                        res == Reading::Found(members["result"@])
                    }
                } else if is_object && members.contains_key("error"@) {
                    res matches Reading::Failed(Error::TxProcessing(words)) && words@
                        == "Error fetching transaction "@ + tx_hash@ + ": "@ + json::json_text(
                        members["error"@],
                    )
                } else {
                    res is Nothing
                }
            },
        },
{
}

proof fn lemma_next_step_finds_a_result(
    tx_hashes: Seq<Seq<char>>,
    replies: Seq<Option<Value>>,
    position: int,
    transactions: Seq<Transaction>,
)
    requires
        0 <= position,
    ensures
        match replies::next_step(tx_hashes, replies, position, transactions) {
            BatchStepView::ParseWrapper { value, position: at, transactions: kept } => {
                &&& position <= at < replies.len()
                &&& kept == transactions
                &&& replies::reading(tx_hashes[at], replies[at]) == ReadingView::Found(value)
            },
            BatchStepView::ParseTransaction { .. } => false,
            BatchStepView::Finished(_) => true,
        },
    decreases replies.len() - position,
{
    if position < replies.len() && replies::reading(
        tx_hashes[position],
        replies[position],
    ) is Nothing {
        lemma_next_step_finds_a_result(tx_hashes, replies, position + 1, transactions);
    }
}

/// Whether a step is in place at a position of a run over these replies.
spec fn in_place(
    tx_hashes: Seq<Seq<char>>,
    replies: Seq<Option<Value>>,
    wrapped: spec_fn(Value) -> Option<Transaction>,
    step: BatchStep,
    i: int,
) -> bool {
    &&& step.keeps(tx_hashes, replies)
    &&& match step {
        BatchStep::ParseWrapper { value, reader } => {
            &&& value == reader.result()
            &&& i <= 2 * reader.position()
        },
        BatchStep::ParseTransaction { value, reader } => {
            &&& wrapped(reader.result()) is None
            &&& json::member(reader.result(), "transaction"@) == Some(value)
            &&& i <= 2 * reader.position() + 1
        },
        BatchStep::Finished(_) => i <= 2 * replies.len(),
    }
}

/// Whether the steps of a run follow from each other, where every value is read as
/// `wrapped` and `plain` do.
spec fn is_run(
    tx_hashes: Vec<String>,
    replies: Vec<Option<Value>>,
    steps: Seq<BatchStep>,
    wrappers: Seq<Option<TransactionWrapper>>,
    plains: Seq<Result<Transaction, String>>,
    wrapped: spec_fn(Value) -> Option<Transaction>,
    plain: spec_fn(Value) -> Result<Transaction, Seq<char>>,
) -> bool {
    &&& tx_hashes@.len() == replies@.len()
    &&& steps.len() > 0
    &&& call_ensures(replies::read_batch, (tx_hashes, replies), steps[0])
    &&& forall|i: int|
        #![trigger steps[i]]
        0 <= i < steps.len() - 1 ==> match steps[i] {
            BatchStep::ParseWrapper { value, reader } => {
                &&& wrappers[i] matches Some(wrapper) ==> wrapped(value) == Some(wrapper.transaction)
                &&& wrappers[i] is None ==> wrapped(value) is None
                &&& call_ensures(BatchReader::wrapper_read, (reader, wrappers[i]), steps[i + 1])
            },
            BatchStep::ParseTransaction { value, reader } => {
                &&& plains[i] matches Ok(tx) ==> plain(value) == Ok::<Transaction, Seq<char>>(tx)
                &&& plains[i] matches Err(reason) ==> plain(value) == Err::<Transaction, Seq<char>>(
                    reason@,
                )
                &&& call_ensures(BatchReader::transaction_read, (reader, plains[i]), steps[i + 1])
            },
            BatchStep::Finished(_) => false,
        }
}

proof fn lemma_run(
    tx_hashes: Vec<String>,
    replies: Vec<Option<Value>>,
    steps: Seq<BatchStep>,
    wrappers: Seq<Option<TransactionWrapper>>,
    plains: Seq<Result<Transaction, String>>,
    wrapped: spec_fn(Value) -> Option<Transaction>,
    plain: spec_fn(Value) -> Result<Transaction, Seq<char>>,
    i: int,
)
    requires
        is_run(tx_hashes, replies, steps, wrappers, plains, wrapped, plain),
        0 <= i < steps.len(),
    ensures
        in_place(enrichment::texts(tx_hashes@), replies@, wrapped, steps[i], i),
        ({
            let outcomes = replies::reply_outcomes(
                enrichment::texts(tx_hashes@),
                replies@,
                wrapped,
                plain,
            );
            replies::conclusion(outcomes, steps[i]@) == replies::collected(outcomes)
        }),
    decreases i,
{
    let hashes = enrichment::texts(tx_hashes@);
    let outcomes = replies::reply_outcomes(hashes, replies@, wrapped, plain);
    if i == 0 {
        lemma_next_step_finds_a_result(hashes, replies@, 0, seq![]);
        replies::lemma_a_batch_comes_down_to_its_replies(hashes, replies@, wrapped, plain);
    } else {
        lemma_run(tx_hashes, replies, steps, wrappers, plains, wrapped, plain, i - 1);
        let step = steps[i - 1];
        match step {
            BatchStep::ParseWrapper { value, reader } => {
                let at = reader.position();
                let kept = reader.transactions();
                replies::lemma_each_step_keeps_the_conclusion(
                    hashes,
                    replies@,
                    at,
                    kept,
                    wrapped,
                    plain,
                );
                if let Some(wrapper) = wrappers[i - 1] {
                    lemma_next_step_finds_a_result(
                        hashes,
                        replies@,
                        at + 1,
                        kept.push(wrapper.transaction),
                    );
                }
            },
            BatchStep::ParseTransaction { value, reader } => {
                let at = reader.position();
                let kept = reader.transactions();
                replies::lemma_each_step_keeps_the_conclusion(
                    hashes,
                    replies@,
                    at,
                    kept,
                    wrapped,
                    plain,
                );
                if let Ok(tx) = plains[i - 1] {
                    lemma_next_step_finds_a_result(hashes, replies@, at + 1, kept.push(tx));
                }
            },
            BatchStep::Finished(_) => {},
        }
    }
}

proof fn lemma_collected_in_order(
    outcomes: Seq<ReplyOutcome>,
    plain_outcomes: Seq<Result<Option<Transaction>, Seq<char>>>,
    brings: spec_fn(Result<Option<Transaction>, Seq<char>>) -> bool,
    brought: spec_fn(Result<Option<Transaction>, Seq<char>>) -> Transaction,
)
    requires
        outcomes.len() == plain_outcomes.len(),
        forall|k: int|
            0 <= k < outcomes.len() ==> plain_outcomes[k] is Ok && #[trigger] outcomes[k] == Ok::<
                Option<Transaction>,
                ErrorView,
            >(plain_outcomes[k]->Ok_0),
        forall|outcome: Result<Option<Transaction>, Seq<char>>| #[trigger]
            brings(outcome) == (outcome->Ok_0 is Some),
        forall|outcome: Result<Option<Transaction>, Seq<char>>| #[trigger]
            brought(outcome) == outcome->Ok_0->0,
    ensures
        replies::collected(outcomes) == Ok::<Seq<Transaction>, ErrorView>(
            plain_outcomes.filter(brings).map_values(brought),
        ),
    decreases outcomes.len(),
{
    reveal(Seq::filter);
    if outcomes.len() > 0 {
        let rest = outcomes.drop_first();
        let plain_rest = plain_outcomes.drop_first();
        let first = seq![plain_outcomes[0]];
        assert forall|k: int| 0 <= k < rest.len() implies plain_rest[k] is Ok && #[trigger] rest[k]
            == Ok::<Option<Transaction>, ErrorView>(plain_rest[k]->Ok_0) by {
            assert(rest[k] == outcomes[k + 1]);
        }
        lemma_collected_in_order(rest, plain_rest, brings, brought);
        assert(plain_outcomes =~= first + plain_rest);
        Seq::filter_distributes_over_add(first, plain_rest, brings);
        assert(first.drop_last() =~= seq![]);
        assert(first.drop_last().filter(brings) =~= seq![]);
        assert(outcomes.first() == outcomes[0]);
        let later = plain_rest.filter(brings).map_values(brought);
        if brings(plain_outcomes[0]) {
            assert(first.filter(brings) =~= first);
            assert((first + plain_rest).filter(brings).map_values(brought) =~= seq![
                brought(plain_outcomes[0]),
            ] + later);
        } else {
            assert(first.filter(brings) =~= seq![]);
            assert((first + plain_rest).filter(brings).map_values(brought) =~= later);
        }
    } else {
        assert(plain_outcomes.filter(brings).map_values(brought) =~= seq![]);
    }
}

proof fn lemma_collected_first_error(outcomes: Seq<ReplyOutcome>, k: int)
    requires
        0 <= k < outcomes.len(),
        outcomes[k] is Err,
        forall|j: int| 0 <= j < k ==> #[trigger] outcomes[j] is Ok,
    ensures
        replies::collected(outcomes) == Err::<Seq<Transaction>, ErrorView>(outcomes[k]->Err_0),
    decreases outcomes.len(),
{
    if k > 0 {
        let rest = outcomes.drop_first();
        assert forall|j: int| 0 <= j < k - 1 implies #[trigger] rest[j] is Ok by {
            assert(rest[j] == outcomes[j + 1]);
        }
        lemma_collected_first_error(rest, k - 1);
        assert(outcomes[0] is Ok);
    }
}

/// A run over the replies to a batch begins with `read_batch`, and goes on with
/// `wrapper_read` and `transaction_read` on whatever each step asks to be read, as
/// `wrapped` and `plain` read it. `outcomes` is what each reply brings, by its
/// members: the transaction of a `result`, with its status or as the `transaction`
/// of it, nothing, or a failure.
///
/// Such a run ends with exactly the transactions that the replies bring, in the
/// order of the questions, or with the first failure.
pub proof fn law_a_run_brings_what_the_replies_bring(
    tx_hashes: Vec<String>,
    replies: Vec<Option<Value>>,
    steps: Seq<BatchStep>,
    wrappers: Seq<Option<TransactionWrapper>>,
    plains: Seq<Result<Transaction, String>>,
    wrapped: spec_fn(Value) -> Option<Transaction>,
    plain: spec_fn(Value) -> Result<Transaction, Seq<char>>,
    outcomes: Seq<Result<Option<Transaction>, Seq<char>>>,
)
    requires
        tx_hashes@.len() == replies@.len(),
        steps.len() > 0,
        call_ensures(replies::read_batch, (tx_hashes, replies), steps[0]),
        forall|i: int|
            #![trigger steps[i]]
            0 <= i < steps.len() - 1 ==> match steps[i] {
                BatchStep::ParseWrapper { value, reader } => {
                    &&& wrappers[i] matches Some(wrapper) ==> wrapped(value) == Some(
                        wrapper.transaction,
                    )
                    &&& wrappers[i] is None ==> wrapped(value) is None
                    &&& call_ensures(BatchReader::wrapper_read, (reader, wrappers[i]), steps[i + 1])
                },
                BatchStep::ParseTransaction { value, reader } => {
                    &&& plains[i] matches Ok(tx) ==> plain(value) == Ok::<Transaction, Seq<char>>(
                        tx,
                    )
                    &&& plains[i] matches Err(reason) ==> plain(value) == Err::<
                        Transaction,
                        Seq<char>,
                    >(reason@)
                    &&& call_ensures(
                        BatchReader::transaction_read,
                        (reader, plains[i]),
                        steps[i + 1],
                    )
                },
                BatchStep::Finished(_) => false,
            },
        steps.last() is Finished,
        outcomes.len() == replies@.len(),
        forall|k: int|
            #![trigger outcomes[k]]
            0 <= k < outcomes.len() ==> {
                let h = tx_hashes@[k]@;
                let members = json::json_view(replies@[k]->0)->Object_0;
                let is_object = json::json_view(replies@[k]->0) is Object;
                let result = members["result"@];
                let fields = json::json_view(result)->Object_0;
                outcomes[k] == if replies@[k] is None {
                    Err("Channel closed for transaction "@ + h)
                } else if is_object && members.contains_key("result"@) {
                    if json::json_view(result) is Null {
                        Err("Transaction not found: "@ + h)
                    } else if wrapped(result) is Some {
                        Ok(Some(wrapped(result)->0))
                    } else if json::json_view(result) is Object && fields.contains_key(
                        "transaction"@,
                    ) {
                        match plain(fields["transaction"@]) {
                            Ok(tx) => Ok(Some(tx)),
                            Err(reason) => Err(
                                "Failed to parse transaction "@ + h + ": "@ + reason,
                            ),
                        }
                    } else {
                        Err("No transaction field found in response for "@ + h)
                    }
                } else if is_object && members.contains_key("error"@) {
                    Err(
                        "Error fetching transaction "@ + h + ": "@ + json::json_text(
                            members["error"@],
                        ),
                    )
                } else {
                    Ok(None)
                }
            },
    ensures
        (forall|k: int| 0 <= k < outcomes.len() ==> #[trigger] outcomes[k] is Ok) ==> {
            &&& steps.last()->Finished_0 is Ok
            &&& steps.last()->Finished_0->Ok_0@ == outcomes.filter(
                |outcome: Result<Option<Transaction>, Seq<char>>| outcome->Ok_0 is Some,
            ).map_values(|outcome: Result<Option<Transaction>, Seq<char>>| outcome->Ok_0->0)
        },
        forall|k: int|
            0 <= k < outcomes.len() && #[trigger] outcomes[k] is Err && (forall|j: int|
                0 <= j < k ==> #[trigger] outcomes[j] is Ok) ==> (steps.last()->Finished_0 matches Err(
                Error::TxProcessing(words),
            ) && words@ == outcomes[k]->Err_0),
{
    let hashes = enrichment::texts(tx_hashes@);
    let expected = replies::reply_outcomes(hashes, replies@, wrapped, plain);
    assert(is_run(tx_hashes, replies, steps, wrappers, plains, wrapped, plain));
    lemma_run(tx_hashes, replies, steps, wrappers, plains, wrapped, plain, steps.len() - 1);
    assert forall|k: int| 0 <= k < outcomes.len() implies #[trigger] expected[k]
        == match outcomes[k] {
        Ok(brought) => Ok::<Option<Transaction>, ErrorView>(brought),
        Err(words) => Err(ErrorView::TxProcessing(words)),
    } by {
        assert(hashes[k] == tx_hashes@[k]@);
        assert(outcomes[k] == outcomes[k]);
    }
    let brings = |outcome: Result<Option<Transaction>, Seq<char>>| outcome->Ok_0 is Some;
    let brought = |outcome: Result<Option<Transaction>, Seq<char>>| outcome->Ok_0->0;
    if forall|k: int| 0 <= k < outcomes.len() ==> #[trigger] outcomes[k] is Ok {
        lemma_collected_in_order(expected, outcomes, brings, brought);
    }
    assert forall|k: int|
        0 <= k < outcomes.len() && #[trigger] outcomes[k] is Err && (forall|j: int|
            0 <= j < k ==> #[trigger] outcomes[j] is Ok) implies (
    steps.last()->Finished_0 matches Err(Error::TxProcessing(words)) && words@
        == outcomes[k]->Err_0) by {
        assert(expected[k] is Err);
        assert forall|j: int| 0 <= j < k implies #[trigger] expected[j] is Ok by {
            assert(outcomes[j] is Ok);
        }
        lemma_collected_first_error(expected, k);
    }
}

/// A run over the replies to a batch ends: it has at most two steps for each reply
/// before the last one.
pub proof fn law_a_run_ends(
    tx_hashes: Vec<String>,
    replies: Vec<Option<Value>>,
    steps: Seq<BatchStep>,
    wrappers: Seq<Option<TransactionWrapper>>,
    plains: Seq<Result<Transaction, String>>,
    wrapped: spec_fn(Value) -> Option<Transaction>,
    plain: spec_fn(Value) -> Result<Transaction, Seq<char>>,
)
    requires
        tx_hashes@.len() == replies@.len(),
        steps.len() > 0,
        call_ensures(replies::read_batch, (tx_hashes, replies), steps[0]),
        forall|i: int|
            #![trigger steps[i]]
            0 <= i < steps.len() - 1 ==> match steps[i] {
                BatchStep::ParseWrapper { value, reader } => {
                    &&& wrappers[i] matches Some(wrapper) ==> wrapped(value) == Some(
                        wrapper.transaction,
                    )
                    &&& wrappers[i] is None ==> wrapped(value) is None
                    &&& call_ensures(BatchReader::wrapper_read, (reader, wrappers[i]), steps[i + 1])
                },
                BatchStep::ParseTransaction { value, reader } => {
                    &&& plains[i] matches Ok(tx) ==> plain(value) == Ok::<Transaction, Seq<char>>(
                        tx,
                    )
                    &&& plains[i] matches Err(reason) ==> plain(value) == Err::<
                        Transaction,
                        Seq<char>,
                    >(reason@)
                    &&& call_ensures(
                        BatchReader::transaction_read,
                        (reader, plains[i]),
                        steps[i + 1],
                    )
                },
                BatchStep::Finished(_) => false,
            },
    ensures
        steps.len() <= 2 * replies@.len() + 1,
{
    assert(is_run(tx_hashes, replies, steps, wrappers, plains, wrapped, plain));
    lemma_run(tx_hashes, replies, steps, wrappers, plains, wrapped, plain, steps.len() - 1);
}

} // verus!
