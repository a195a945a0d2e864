//! Reading the replies to a batch of requests.

use crate::enrichment;
use crate::error::{Error, ErrorView};
use crate::json;
use crate::types::{Input, Transaction, TransactionWrapper};
use serde_json::Value;
use vstd::prelude::*;

verus! {

/// What a reply says, before its result is read as a transaction.
pub enum Reading {
    /// There is no transaction, for this reason.
    Failed(Error),
    /// Neither a result nor an error.
    Nothing,
    /// A result.
    Found(Value),
}

/// What a reply says, the reason of a failure as a sequence of characters.
pub enum ReadingView {
    Failed(ErrorView),
    Nothing,
    Found(Value),
}

impl View for Reading {
    type V = ReadingView;

    open spec fn view(&self) -> ReadingView {
        match self {
            Reading::Failed(e) => ReadingView::Failed(e@),
            Reading::Nothing => ReadingView::Nothing,
            Reading::Found(result) => ReadingView::Found(*result),
        }
    }
}

/// What the reply for a transaction says; `None` is a channel that was closed
/// before a reply came.
pub open spec fn reading(tx_hash: Seq<char>, reply: Option<Value>) -> ReadingView {
    match reply {
        None => ReadingView::Failed(
            ErrorView::TxProcessing("Channel closed for transaction "@ + tx_hash),
        ),
        Some(response) => match json::member(response, "result"@) {
            Some(result) => if json::json_view(result) is Null {
                ReadingView::Failed(
                    ErrorView::TxProcessing("Transaction not found: "@ + tx_hash),
                )
            } else {
                ReadingView::Found(result)
            },
            None => match json::member(response, "error"@) {
                Some(error) => ReadingView::Failed(
                    ErrorView::TxProcessing(
                        "Error fetching transaction "@ + tx_hash + ": "@ + json::json_text(error),
                    ),
                ),
                None => ReadingView::Nothing,
            },
        },
    }
}

/// Reads the reply for a transaction.
pub fn read_reply(tx_hash: &str, reply: &Option<Value>) -> (res: Reading)
    ensures
        res@ == reading(tx_hash@, *reply),
{
    match reply {
        None => {
            let message = "Channel closed for transaction ".to_string().concat(tx_hash);
            Reading::Failed(Error::TxProcessing(message))
        },
        Some(response) => match json::get_member(response, "result") {
            Some(result) => {
                if result.is_null() {
                    let message = "Transaction not found: ".to_string().concat(tx_hash);
                    Reading::Failed(Error::TxProcessing(message))
                } else {
                    Reading::Found(result.clone())
                }
            },
            None => match json::get_member(response, "error") {
                Some(error) => {
                    let message = "Error fetching transaction ".to_string().concat(tx_hash).concat(
                        ": ",
                    ).concat(json::render_json(error).as_str());
                    Reading::Failed(Error::TxProcessing(message))
                },
                None => Reading::Nothing,
            },
        },
    }
}

/// The error for a result that holds no transaction.
pub open spec fn missing_transaction(tx_hash: Seq<char>) -> ErrorView {
    ErrorView::TxProcessing("No transaction field found in response for "@ + tx_hash)
}

/// The error for a transaction that cannot be read, for the reason given.
pub open spec fn unreadable_transaction(tx_hash: Seq<char>, reason: Seq<char>) -> ErrorView {
    ErrorView::TxProcessing("Failed to parse transaction "@ + tx_hash + ": "@ + reason)
}

/// The replies to a batch, half read: those before a position have brought some
/// transactions, and the result at the position is being read.
pub struct BatchReader {
    tx_hashes: Vec<String>,
    replies: Vec<Option<Value>>,
    position: usize,
    transactions: Vec<Transaction>,
}

/// What to do next to read the replies to a batch.
pub enum BatchStep {
    /// Read a value as a transaction with its status, then call `wrapper_read`.
    ParseWrapper { value: Value, reader: BatchReader },
    /// Read a value as a transaction, then call `transaction_read`.
    ParseTransaction { value: Value, reader: BatchReader },
    /// These are the transactions.
    Finished(Result<Vec<Transaction>, Error>),
}

/// What to do next to read the replies to a batch: the value to read, the position
/// of its reply, and the transactions that earlier replies brought. The replies
/// themselves stay the same throughout, which `BatchStep::keeps` states.
pub enum BatchStepView {
    ParseWrapper { value: Value, position: int, transactions: Seq<Transaction> },
    ParseTransaction { value: Value, position: int, transactions: Seq<Transaction> },
    Finished(Result<Seq<Transaction>, ErrorView>),
}

impl BatchReader {
    /// The transactions that were asked for.
    pub closed spec fn hashes(&self) -> Seq<Seq<char>> {
        enrichment::texts(self.tx_hashes@)
    }

    /// The replies, in the order of the questions.
    pub closed spec fn replies(&self) -> Seq<Option<Value>> {
        self.replies@
    }

    /// The position of the reply that is being read.
    pub closed spec fn position(&self) -> int {
        self.position as int
    }

    /// The transactions that earlier replies brought.
    pub closed spec fn transactions(&self) -> Seq<Transaction> {
        self.transactions@
    }

    /// The reader is at a reply with a result.
    pub open spec fn inv(&self) -> bool {
        &&& self.replies().len() == self.hashes().len()
        &&& 0 <= self.position() < self.replies().len()
        &&& reading(
            self.hashes()[self.position()],
            self.replies()[self.position()],
        ) is Found
    }

    /// The result that is being read.
    pub open spec fn result(&self) -> Value {
        reading(self.hashes()[self.position()], self.replies()[self.position()])->Found_0
    }
}

impl View for BatchStep {
    type V = BatchStepView;

    open spec fn view(&self) -> BatchStepView {
        match self {
            BatchStep::ParseWrapper { value, reader } => BatchStepView::ParseWrapper {
                value: *value,
                position: reader.position(),
                transactions: reader.transactions(),
            },
            BatchStep::ParseTransaction { value, reader } => BatchStepView::ParseTransaction {
                value: *value,
                position: reader.position(),
                transactions: reader.transactions(),
            },
            BatchStep::Finished(Ok(transactions)) => BatchStepView::Finished(Ok(transactions@)),
            BatchStep::Finished(Err(e)) => BatchStepView::Finished(Err(e@)),
        }
    }
}

impl BatchStep {
    /// A step that is not the last one goes on with these replies.
    pub open spec fn keeps(
        &self,
        tx_hashes: Seq<Seq<char>>,
        replies: Seq<Option<Value>>,
    ) -> bool {
        match self {
            BatchStep::ParseWrapper { reader, .. } | BatchStep::ParseTransaction { reader, .. } => {
                &&& reader.inv()
                &&& reader.hashes() == tx_hashes
                &&& reader.replies() == replies
            },
            BatchStep::Finished(_) => true,
        }
    }
}

/// The step at the first reply from a position on that has a result or fails.
pub open spec fn next_step(
    tx_hashes: Seq<Seq<char>>,
    replies: Seq<Option<Value>>,
    position: int,
    transactions: Seq<Transaction>,
) -> BatchStepView
    decreases replies.len() - position,
{
    if position < 0 || position >= replies.len() {
        BatchStepView::Finished(Ok(transactions))
    } else {
        match reading(tx_hashes[position], replies[position]) {
            ReadingView::Failed(e) => BatchStepView::Finished(Err(e)),
            ReadingView::Nothing => next_step(tx_hashes, replies, position + 1, transactions),
            ReadingView::Found(value) => BatchStepView::ParseWrapper {
                value,
                position,
                transactions,
            },
        }
    }
}

/// The step after a result was read as a transaction with its status, or could not
/// be.
pub open spec fn step_after_wrapper(
    tx_hashes: Seq<Seq<char>>,
    replies: Seq<Option<Value>>,
    position: int,
    transactions: Seq<Transaction>,
    result: Value,
    parsed: Option<Transaction>,
) -> BatchStepView {
    match parsed {
        Some(transaction) => next_step(
            tx_hashes,
            replies,
            position + 1,
            transactions.push(transaction),
        ),
        None => match json::member(result, "transaction"@) {
            Some(value) => BatchStepView::ParseTransaction { value, position, transactions },
            None => BatchStepView::Finished(Err(missing_transaction(tx_hashes[position]))),
        },
    }
}

/// The step after the transaction of a result was read, or could not be, for the
/// reason given.
pub open spec fn step_after_transaction(
    tx_hashes: Seq<Seq<char>>,
    replies: Seq<Option<Value>>,
    position: int,
    transactions: Seq<Transaction>,
    parsed: Result<Transaction, Seq<char>>,
) -> BatchStepView {
    match parsed {
        Ok(transaction) => next_step(
            tx_hashes,
            replies,
            position + 1,
            transactions.push(transaction),
        ),
        Err(reason) => BatchStepView::Finished(
            Err(unreadable_transaction(tx_hashes[position], reason)),
        ),
    }
}

fn advance(
    tx_hashes: Vec<String>,
    replies: Vec<Option<Value>>,
    position: usize,
    transactions: Vec<Transaction>,
) -> (res: BatchStep)
    requires
        tx_hashes@.len() == replies@.len(),
        position <= replies@.len(),
    ensures
        res@ == next_step(
            enrichment::texts(tx_hashes@),
            replies@,
            position as int,
            transactions@,
        ),
        res.keeps(enrichment::texts(tx_hashes@), replies@),
{
    let mut at: usize = position;
    while at < replies.len()
        invariant
            tx_hashes@.len() == replies@.len(),
            position <= at <= replies@.len(),
            next_step(
                enrichment::texts(tx_hashes@),
                replies@,
                position as int,
                transactions@,
            ) == next_step(
                enrichment::texts(tx_hashes@),
                replies@,
                at as int,
                transactions@,
            ),
        decreases replies.len() - at,
    {
        match read_reply(tx_hashes[at].as_str(), &replies[at]) {
            Reading::Failed(e) => {
                return BatchStep::Finished(Err(e));
            },
            Reading::Nothing => {
                at = at + 1;
            },
            Reading::Found(value) => {
                return BatchStep::ParseWrapper {
                    value,
                    reader: BatchReader { tx_hashes, replies, position: at, transactions },
                };
            },
        }
    }
    BatchStep::Finished(Ok(transactions))
}

/// Begins to read the replies to a batch, one for each transaction that was asked
/// for.
pub fn read_batch(tx_hashes: Vec<String>, replies: Vec<Option<Value>>) -> (res: BatchStep)
    requires
        tx_hashes@.len() == replies@.len(),
    ensures
        res@ == next_step(enrichment::texts(tx_hashes@), replies@, 0, seq![]),
        res.keeps(enrichment::texts(tx_hashes@), replies@),
{
    advance(tx_hashes, replies, 0, Vec::new())
}

impl BatchReader {
    /// Goes on once the result has been read as a transaction with its status, or
    /// could not be.
    pub fn wrapper_read(self, parsed: Option<TransactionWrapper>) -> (res: BatchStep)
        requires
            self.inv(),
        ensures
            res@ == step_after_wrapper(
                self.hashes(),
                self.replies(),
                self.position(),
                self.transactions(),
                self.result(),
                match parsed {
                    Some(wrapper) => Some(wrapper.transaction),
                    None => None,
                },
            ),
            res.keeps(self.hashes(), self.replies()),
    {
        match parsed {
            Some(wrapper) => {
                assert(self.position < self.replies.len());
                let mut transactions = self.transactions;
                transactions.push(wrapper.transaction);
                advance(self.tx_hashes, self.replies, self.position + 1, transactions)
            },
            None => {
                let at = self.position;
                let found: Option<Value> = match read_reply(
                    self.tx_hashes[at].as_str(),
                    &self.replies[at],
                ) {
                    Reading::Found(result) => match json::get_member(&result, "transaction") {
                        Some(value) => Some(value.clone()),
                        None => None,
                    },
                    _ => None,
                };
                match found {
                    Some(value) => BatchStep::ParseTransaction { value, reader: self },
                    None => {
                        let message = "No transaction field found in response for ".to_string().concat(
                            self.tx_hashes[at].as_str(),
                        );
                        BatchStep::Finished(Err(Error::TxProcessing(message)))
                    },
                }
            },
        }
    }

    /// Goes on once the transaction of the result has been read, or could not be,
    /// for the reason given.
    pub fn transaction_read(self, parsed: Result<Transaction, String>) -> (res: BatchStep)
        requires
            self.inv(),
        ensures
            res@ == step_after_transaction(
                self.hashes(),
                self.replies(),
                self.position(),
                self.transactions(),
                match parsed {
                    Ok(transaction) => Ok(transaction),
                    Err(reason) => Err(reason@),
                },
            ),
            res.keeps(self.hashes(), self.replies()),
    {
        match parsed {
            Ok(transaction) => {
                assert(self.position < self.replies.len());
                let mut transactions = self.transactions;
                transactions.push(transaction);
                advance(self.tx_hashes, self.replies, self.position + 1, transactions)
            },
            Err(reason) => {
                let message = "Failed to parse transaction ".to_string().concat(
                    self.tx_hashes[self.position].as_str(),
                ).concat(": ").concat(reason.as_str());
                BatchStep::Finished(Err(Error::TxProcessing(message)))
            },
        }
    }
}

/// What a reply comes down to: a transaction, nothing, or an error.
pub type ReplyOutcome = Result<Option<Transaction>, ErrorView>;

/// What the reply for a transaction comes down to, where `wrapped` reads a value as
/// a transaction with its status and `plain` as a transaction.
pub open spec fn reply_outcome(
    tx_hash: Seq<char>,
    reply: Option<Value>,
    wrapped: spec_fn(Value) -> Option<Transaction>,
    plain: spec_fn(Value) -> Result<Transaction, Seq<char>>,
) -> ReplyOutcome {
    match reading(tx_hash, reply) {
        ReadingView::Failed(e) => Err(e),
        ReadingView::Nothing => Ok(None),
        ReadingView::Found(result) => match wrapped(result) {
            Some(transaction) => Ok(Some(transaction)),
            None => match json::member(result, "transaction"@) {
                Some(value) => match plain(value) {
                    Ok(transaction) => Ok(Some(transaction)),
                    Err(reason) => Err(unreadable_transaction(tx_hash, reason)),
                },
                None => Err(missing_transaction(tx_hash)),
            },
        },
    }
}

/// What each reply to a batch comes down to.
pub open spec fn reply_outcomes(
    tx_hashes: Seq<Seq<char>>,
    replies: Seq<Option<Value>>,
    wrapped: spec_fn(Value) -> Option<Transaction>,
    plain: spec_fn(Value) -> Result<Transaction, Seq<char>>,
) -> Seq<ReplyOutcome> {
    Seq::new(replies.len(), |i: int| reply_outcome(tx_hashes[i], replies[i], wrapped, plain))
}

/// The transactions that a list of replies brings, in order, or the first error.
/// A reply that brings nothing leaves no gap.
pub open spec fn collected(outcomes: Seq<ReplyOutcome>) -> Result<Seq<Transaction>, ErrorView>
    decreases outcomes.len(),
{
    if outcomes.len() == 0 {
        Ok(seq![])
    } else {
        match outcomes.first() {
            Ok(Some(transaction)) => match collected(outcomes.drop_first()) {
                Ok(later) => Ok(seq![transaction] + later),
                Err(e) => Err(e),
            },
            Ok(None) => collected(outcomes.drop_first()),
            Err(e) => Err(e),
        }
    }
}

/// What the replies from a position on add to the transactions of the earlier ones.
pub open spec fn completed(
    outcomes: Seq<ReplyOutcome>,
    position: int,
    transactions: Seq<Transaction>,
) -> Result<Seq<Transaction>, ErrorView> {
    match collected(outcomes.skip(position)) {
        Ok(later) => Ok(transactions + later),
        Err(e) => Err(e),
    }
}

/// What reading the replies to a batch comes down to when it is at a step.
pub open spec fn conclusion(outcomes: Seq<ReplyOutcome>, step: BatchStepView) -> Result<
    Seq<Transaction>,
    ErrorView,
> {
    match step {
        BatchStepView::ParseWrapper { position, transactions, .. } => completed(
            outcomes,
            position,
            transactions,
        ),
        BatchStepView::ParseTransaction { position, transactions, .. } => completed(
            outcomes,
            position,
            transactions,
        ),
        BatchStepView::Finished(res) => res,
    }
}

proof fn lemma_next_step(
    tx_hashes: Seq<Seq<char>>,
    replies: Seq<Option<Value>>,
    position: int,
    transactions: Seq<Transaction>,
    wrapped: spec_fn(Value) -> Option<Transaction>,
    plain: spec_fn(Value) -> Result<Transaction, Seq<char>>,
)
    requires
        0 <= position <= replies.len(),
    ensures
        ({
            let outcomes = reply_outcomes(tx_hashes, replies, wrapped, plain);
            conclusion(outcomes, next_step(tx_hashes, replies, position, transactions))
                == completed(outcomes, position, transactions)
        }),
    decreases replies.len() - position,
{
    let outcomes = reply_outcomes(tx_hashes, replies, wrapped, plain);
    if position < replies.len() {
        assert(outcomes.skip(position).first() == outcomes[position]);
        assert(outcomes.skip(position).drop_first() =~= outcomes.skip(position + 1));
        if reading(tx_hashes[position], replies[position]) is Nothing {
            lemma_next_step(tx_hashes, replies, position + 1, transactions, wrapped, plain);
        }
    } else {
        assert(outcomes.skip(position) =~= seq![]);
        assert(transactions + seq![] =~= transactions);
    }
}

/// Reading the replies to a batch begins at what they come down to: the
/// transactions that they bring, in the order of the questions, or the first error.
pub proof fn lemma_a_batch_comes_down_to_its_replies(
    tx_hashes: Seq<Seq<char>>,
    replies: Seq<Option<Value>>,
    wrapped: spec_fn(Value) -> Option<Transaction>,
    plain: spec_fn(Value) -> Result<Transaction, Seq<char>>,
)
    ensures
        ({
            let outcomes = reply_outcomes(tx_hashes, replies, wrapped, plain);
            conclusion(outcomes, next_step(tx_hashes, replies, 0, seq![])) == collected(outcomes)
        }),
{
    let outcomes = reply_outcomes(tx_hashes, replies, wrapped, plain);
    lemma_next_step(tx_hashes, replies, 0, seq![], wrapped, plain);
    assert(outcomes.skip(0) =~= outcomes);
    if let Ok(all) = collected(outcomes) {
        assert(seq![] + all =~= all);
    }
}

/// No step of reading the replies to a batch changes what it comes down to, as long
/// as each value is read as it should be.
pub proof fn lemma_each_step_keeps_the_conclusion(
    tx_hashes: Seq<Seq<char>>,
    replies: Seq<Option<Value>>,
    position: int,
    transactions: Seq<Transaction>,
    wrapped: spec_fn(Value) -> Option<Transaction>,
    plain: spec_fn(Value) -> Result<Transaction, Seq<char>>,
)
    requires
        tx_hashes.len() == replies.len(),
        0 <= position < replies.len(),
        reading(tx_hashes[position], replies[position]) is Found,
    ensures
        ({
            let outcomes = reply_outcomes(tx_hashes, replies, wrapped, plain);
            let result = reading(tx_hashes[position], replies[position])->Found_0;
            let second = step_after_wrapper(
                tx_hashes,
                replies,
                position,
                transactions,
                result,
                wrapped(result),
            );
            &&& conclusion(outcomes, second) == completed(outcomes, position, transactions)
            &&& second matches BatchStepView::ParseTransaction { value, position: at, transactions: kept }
                ==> at == position && kept == transactions && conclusion(
                outcomes,
                step_after_transaction(tx_hashes, replies, position, transactions, plain(value)),
            ) == completed(outcomes, position, transactions)
        }),
{
    let outcomes = reply_outcomes(tx_hashes, replies, wrapped, plain);
    let result = reading(tx_hashes[position], replies[position])->Found_0;
    assert(outcomes.skip(position).first() == outcomes[position]);
    assert(outcomes.skip(position).drop_first() =~= outcomes.skip(position + 1));
    let later = collected(outcomes.skip(position + 1));
    match outcomes[position] {
        Ok(Some(transaction)) => {
            let longer = transactions.push(transaction);
            lemma_next_step(tx_hashes, replies, position + 1, longer, wrapped, plain);
            lemma_next_step_moves_on(tx_hashes, replies, position + 1, longer);
            if let Ok(more) = later {
                assert(longer + more =~= transactions + (seq![transaction] + more));
            }
            assert(completed(outcomes, position, transactions) == completed(
                outcomes,
                position + 1,
                longer,
            ));
        },
        Ok(None) => {
            assert(false);
        },
        Err(e) => {
            assert(completed(outcomes, position, transactions) == Err::<
                Seq<Transaction>,
                ErrorView,
            >(e));
        },
    }
}

proof fn lemma_next_step_moves_on(
    tx_hashes: Seq<Seq<char>>,
    replies: Seq<Option<Value>>,
    position: int,
    transactions: Seq<Transaction>,
)
    requires
        0 <= position,
    ensures
        match next_step(tx_hashes, replies, position, transactions) {
            BatchStepView::ParseWrapper { position: at, .. } => position <= at < replies.len(),
            BatchStepView::ParseTransaction { .. } => false,
            BatchStepView::Finished(_) => true,
        },
    decreases replies.len() - position,
{
    if position < replies.len() && reading(tx_hashes[position], replies[position]) is Nothing {
        lemma_next_step_moves_on(tx_hashes, replies, position + 1, transactions);
    }
}

/// Reading the replies to a batch ends: once a result has been read, whatever came
/// of it, at most its transaction is left to read before a later reply is.
pub proof fn lemma_reading_a_batch_ends(
    tx_hashes: Seq<Seq<char>>,
    replies: Seq<Option<Value>>,
    position: int,
    transactions: Seq<Transaction>,
    result: Value,
    wrapped: Option<Transaction>,
    plain: Result<Transaction, Seq<char>>,
)
    requires
        0 <= position < replies.len(),
    ensures
        match step_after_wrapper(tx_hashes, replies, position, transactions, result, wrapped) {
            BatchStepView::ParseWrapper { position: at, .. } => position < at < replies.len(),
            BatchStepView::ParseTransaction { position: at, .. } => at == position,
            BatchStepView::Finished(_) => true,
        },
        match step_after_transaction(tx_hashes, replies, position, transactions, plain) {
            BatchStepView::ParseWrapper { position: at, .. } => position < at < replies.len(),
            BatchStepView::ParseTransaction { .. } => false,
            BatchStepView::Finished(_) => true,
        },
{
    if let Some(transaction) = wrapped {
        lemma_next_step_moves_on(tx_hashes, replies, position + 1, transactions.push(transaction));
    }
    if let Ok(transaction) = plain {
        lemma_next_step_moves_on(tx_hashes, replies, position + 1, transactions.push(transaction));
    }
}

/// Whether two ways to read a value agree: where `wrapped` reads a transaction with
/// its status, the transaction is what `plain` reads from the member under
/// `transaction`.
pub open spec fn readers_agree(
    wrapped: spec_fn(Value) -> Option<Transaction>,
    plain: spec_fn(Value) -> Result<Transaction, Seq<char>>,
) -> bool {
    forall|result: Value|
        #![trigger wrapped(result)]
        wrapped(result) matches Some(transaction) ==> {
            &&& json::member(result, "transaction"@) is Some
            &&& plain(json::member(result, "transaction"@)->0) == Ok::<Transaction, Seq<char>>(
                transaction,
            )
        }
}

/// Only the transaction of a result decides what a reply comes down to: its status,
/// of whatever form or missing, and all else beside it make no difference.
pub proof fn lemma_only_the_transaction_of_a_result_decides(
    tx_hash: Seq<char>,
    reply: Option<Value>,
    wrapped: spec_fn(Value) -> Option<Transaction>,
    plain: spec_fn(Value) -> Result<Transaction, Seq<char>>,
)
    requires
        readers_agree(wrapped, plain),
        reading(tx_hash, reply) is Found,
    ensures
        reply_outcome(tx_hash, reply, wrapped, plain) == match json::member(
            reading(tx_hash, reply)->Found_0,
            "transaction"@,
        ) {
            Some(value) => match plain(value) {
                Ok(transaction) => Ok(Some(transaction)),
                Err(reason) => Err(unreadable_transaction(tx_hash, reason)),
            },
            None => Err(missing_transaction(tx_hash)),
        },
{
}

/// The result of a reply, if it has one that is not null.
pub open spec fn result_of(reply: Option<Value>) -> Option<Value> {
    match reply {
        Some(response) => match json::member(response, "result"@) {
            Some(result) => if json::json_view(result) is Null {
                None
            } else {
                Some(result)
            },
            None => None,
        },
        None => None,
    }
}

/// Whether two replies are the same, or both have a result, with the same
/// transaction in it.
pub open spec fn same_transaction(reply: Option<Value>, other: Option<Value>) -> bool {
    ||| reply == other
    ||| {
        &&& result_of(reply) is Some
        &&& result_of(other) is Some
        &&& json::member(result_of(reply)->0, "transaction"@) == json::member(
            result_of(other)->0,
            "transaction"@,
        )
    }
}

/// Two batches for the same transactions come down to the same, if their replies
/// differ only in what stands beside the transactions of their results.
pub proof fn lemma_the_status_of_a_transaction_is_irrelevant(
    tx_hashes: Seq<Seq<char>>,
    replies: Seq<Option<Value>>,
    others: Seq<Option<Value>>,
    wrapped: spec_fn(Value) -> Option<Transaction>,
    plain: spec_fn(Value) -> Result<Transaction, Seq<char>>,
)
    requires
        readers_agree(wrapped, plain),
        tx_hashes.len() == replies.len() == others.len(),
        forall|i: int|
            0 <= i < replies.len() ==> same_transaction(#[trigger] replies[i], others[i]),
    ensures
        collected(reply_outcomes(tx_hashes, replies, wrapped, plain)) == collected(
            reply_outcomes(tx_hashes, others, wrapped, plain),
        ),
{
    let outcomes = reply_outcomes(tx_hashes, replies, wrapped, plain);
    let other_outcomes = reply_outcomes(tx_hashes, others, wrapped, plain);
    assert forall|i: int| 0 <= i < outcomes.len() implies #[trigger] outcomes[i]
        == other_outcomes[i] by {
        assert(same_transaction(replies[i], others[i]));
        if replies[i] != others[i] {
            lemma_only_the_transaction_of_a_result_decides(
                tx_hashes[i],
                replies[i],
                wrapped,
                plain,
            );
            lemma_only_the_transaction_of_a_result_decides(
                tx_hashes[i],
                others[i],
                wrapped,
                plain,
            );
        }
    }
    assert(outcomes =~= other_outcomes);
}

/// When every reply brings the transaction that the node holds, the answers are
/// in the order of the questions.
pub proof fn lemma_complete_replies_answer_in_order(
    node: Map<Seq<char>, Transaction>,
    tx_hashes: Seq<Seq<char>>,
    outcomes: Seq<ReplyOutcome>,
)
    requires
        outcomes.len() == tx_hashes.len(),
        forall|i: int|
            #![trigger tx_hashes[i]]
            0 <= i < tx_hashes.len() ==> node.contains_key(tx_hashes[i]) && outcomes[i] == Ok::<
                Option<Transaction>,
                ErrorView,
            >(Some(node[tx_hashes[i]])),
    ensures
        collected(outcomes) matches Ok(answers) && enrichment::answers_match(
            node,
            tx_hashes,
            answers,
        ),
    decreases outcomes.len(),
{
    if outcomes.len() > 0 {
        let hashes = tx_hashes.drop_first();
        assert forall|i: int|
            #![trigger hashes[i]]
            0 <= i < hashes.len() implies node.contains_key(hashes[i]) && outcomes.drop_first()[i]
            == Ok::<Option<Transaction>, ErrorView>(Some(node[hashes[i]])) by {
            assert(hashes[i] == tx_hashes[i + 1]);
        }
        lemma_complete_replies_answer_in_order(node, hashes, outcomes.drop_first());
        let later = collected(outcomes.drop_first())->Ok_0;
        assert(outcomes.first() == Ok::<Option<Transaction>, ErrorView>(Some(node[tx_hashes[0]])));
        let answers = seq![node[tx_hashes[0]]] + later;
        assert(collected(outcomes) == Ok::<Seq<Transaction>, ErrorView>(answers));
        assert forall|i: int|
            #![trigger tx_hashes[i]]
            0 <= i < tx_hashes.len() implies node.contains_key(tx_hashes[i]) && answers[i]
            == node[tx_hashes[i]] by {
            if i > 0 {
                assert(hashes[i - 1] == tx_hashes[i]);
            }
        }
    }
}

/// A batch brings transactions exactly if no reply failed, and then one for each
/// reply that did not come back empty.
pub proof fn lemma_one_failed_reply_fails_the_batch(outcomes: Seq<ReplyOutcome>)
    ensures
        collected(outcomes) is Ok <==> forall|i: int|
            0 <= i < outcomes.len() ==> #[trigger] outcomes[i] is Ok,
        collected(outcomes) matches Ok(answers) ==> answers.len() <= outcomes.len(),
        collected(outcomes) matches Ok(answers) ==> (answers.len() == outcomes.len() <==> forall|
            i: int,
        |
            0 <= i < outcomes.len() ==> (#[trigger] outcomes[i])->Ok_0 is Some),
    decreases outcomes.len(),
{
    if outcomes.len() > 0 {
        let rest = outcomes.drop_first();
        lemma_one_failed_reply_fails_the_batch(rest);
        assert(forall|i: int| 0 <= i < rest.len() ==> #[trigger] rest[i] == outcomes[i + 1]);
        assert(forall|i: int| 0 < i < outcomes.len() ==> #[trigger] outcomes[i] == rest[i - 1]);
        assert(outcomes[0] == outcomes.first());
    }
}

/// A reply that brings neither a result nor an error leaves the transaction
/// without the details that it asked for, and the enrichment fails.
pub proof fn lemma_an_empty_reply_fails_the_enrichment(
    inputs: Seq<Input>,
    outcomes: Seq<ReplyOutcome>,
    k: int,
)
    requires
        outcomes.len() == enrichment::distinct(enrichment::spent_hashes(inputs)).len(),
        0 <= k < outcomes.len(),
        outcomes[k] == Ok::<Option<Transaction>, ErrorView>(None),
    ensures
        match collected(outcomes) {
            Ok(answers) => enrichment::all_filled(
                inputs,
                enrichment::source_map(
                    enrichment::distinct(enrichment::spent_hashes(inputs)),
                    answers,
                ),
            ) is Err,
            Err(_) => true,
        },
{
    lemma_one_failed_reply_fails_the_batch(outcomes);
    if let Ok(answers) = collected(outcomes) {
        assert(!(outcomes[k]->Ok_0 is Some));
        enrichment::lemma_a_missing_answer_fails_the_enrichment(inputs, answers);
    }
}

} // verus!
