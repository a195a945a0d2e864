//! Transactions as the CKB node writes them.

use serde_json::Value;
use vstd::prelude::*;

verus! {

/// The answer to one `get_transaction` request.
#[derive(Debug, Clone)]
pub struct TransactionResponse {
    pub result: TransactionWrapper,
}

/// A transaction with its status, and whatever else the node sent along.
#[derive(Debug, Clone)]
pub struct TransactionWrapper {
    pub transaction: Transaction,
    pub tx_status: String,
    pub other: Value,
}

#[derive(Debug, Clone)]
pub struct Transaction {
    pub hash: String,
    pub inputs: Vec<Input>,
    pub outputs: Vec<Output>,
    pub cell_deps: Vec<CellDep>,
    pub header_deps: Vec<String>,
    pub outputs_data: Vec<String>,
    pub version: String,
    pub witnesses: Vec<String>,
}

#[derive(Debug, Clone)]
pub struct CellDep {
    pub dep_type: String,
    pub out_point: OutPoint,
}

/// An input: the output that it spends, and, once enriched, what that output
/// holds.
#[derive(Debug, Clone)]
pub struct Input {
    pub previous_output: OutPoint,
    pub since: String,
    pub capacity: Option<String>,
    pub lock: Option<Script>,
    pub type_script: Option<Script>,
}

/// An output of a transaction: its position, in hexadecimal, and the hash of the
/// transaction.
#[derive(Debug, Clone)]
pub struct OutPoint {
    pub index: String,
    pub tx_hash: String,
}

#[derive(Debug, Clone)]
pub struct Output {
    pub capacity: String,
    pub lock: Script,
    pub type_script: Option<Script>,
}

#[derive(Debug)]
pub struct Script {
    pub args: String,
    pub code_hash: String,
    pub hash_type: String,
}

impl Clone for Script {
    fn clone(&self) -> (res: Self)
        ensures
            res == *self,
    {
        Script {
            args: self.args.clone(),
            code_hash: self.code_hash.clone(),
            hash_type: self.hash_type.clone(),
        }
    }
}

/// A transaction beside the outputs that its inputs spend.
#[derive(Debug)]
pub struct DetailedTransaction {
    pub original_tx: Transaction,
    pub input_details: Vec<Output>,
}

} // verus!
