//! What the operations promise, in terms of what goes into a call and what comes
//! out of it.
//!
//! A law here speaks of calls: `call_ensures(f, args, res)` says that `f` may
//! return `res` for these arguments.

pub mod config;
pub mod enrichment;
pub mod error;
pub mod http;
pub mod replies;
pub mod service;
pub mod text;
pub mod websocket;
