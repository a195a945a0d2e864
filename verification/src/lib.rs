//! The decisions of a CKB transaction detail service, verified.
//!
//! The service listens for transactions on an MQTT topic and answers HTTP
//! queries about them. Each transaction input only names the output that it
//! spends; the service asks a CKB node for the transactions that hold those
//! outputs and copies capacity, lock and type script into the inputs.
//!
//! Everything here is a function from plain values to plain values. Sockets,
//! timers, tasks and the environment belong to the program around it, which
//! performs the actions that these functions return and hands the outcome back.

pub mod config;
pub mod enrichment;
pub mod error;
pub mod http;
pub mod json;
pub mod laws;
pub mod replies;
pub mod service;
pub mod text;
pub mod types;
pub mod websocket;
