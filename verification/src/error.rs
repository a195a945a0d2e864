//! What can go wrong.

use vstd::prelude::*;

verus! {

/// An error of the service, with the words that describe it.
#[derive(Debug)]
pub enum Error {
    /// The configuration cannot be read.
    Config(String),
    /// The connection to the CKB node failed.
    WebSocket(String),
    /// A request to the MQTT client failed.
    Mqtt(String),
    /// A message cannot be written as JSON.
    Json(String),
    /// A transaction cannot be fetched or enriched.
    TxProcessing(String),
    /// An HTTP request is malformed.
    Http(String),
}

/// An error, its words as a sequence of characters.
pub enum ErrorView {
    Config(Seq<char>),
    WebSocket(Seq<char>),
    Mqtt(Seq<char>),
    Json(Seq<char>),
    TxProcessing(Seq<char>),
    Http(Seq<char>),
}

impl View for Error {
    type V = ErrorView;

    open spec fn view(&self) -> ErrorView {
        match self {
            Error::Config(words) => ErrorView::Config(words@),
            Error::WebSocket(words) => ErrorView::WebSocket(words@),
            Error::Mqtt(words) => ErrorView::Mqtt(words@),
            Error::Json(words) => ErrorView::Json(words@),
            Error::TxProcessing(words) => ErrorView::TxProcessing(words@),
            Error::Http(words) => ErrorView::Http(words@),
        }
    }
}

impl ErrorView {
    /// The message that a user sees: the kind of error, then its words.
    pub open spec fn message(self) -> Seq<char> {
        match self {
            ErrorView::Config(words) => "Configuration error: "@ + words,
            ErrorView::WebSocket(words) => "WebSocket error: "@ + words,
            ErrorView::Mqtt(words) => "MQTT error: "@ + words,
            ErrorView::Json(words) => "JSON error: "@ + words,
            ErrorView::TxProcessing(words) => "Transaction processing error: "@ + words,
            ErrorView::Http(words) => "HTTP error: "@ + words,
        }
    }
}

impl Error {
    /// The message that a user sees.
    pub fn message(&self) -> (res: String)
        ensures
            res@ == self@.message(),
    {
        match self {
            Error::Config(words) => "Configuration error: ".to_string().concat(words.as_str()),
            Error::WebSocket(words) => "WebSocket error: ".to_string().concat(words.as_str()),
            Error::Mqtt(words) => "MQTT error: ".to_string().concat(words.as_str()),
            Error::Json(words) => "JSON error: ".to_string().concat(words.as_str()),
            Error::TxProcessing(words) => "Transaction processing error: ".to_string().concat(
                words.as_str(),
            ),
            Error::Http(words) => "HTTP error: ".to_string().concat(words.as_str()),
        }
    }
}

} // verus!
