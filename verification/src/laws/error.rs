//! Laws on errors.

use crate::error::Error;
use vstd::prelude::*;

verus! {

/// A message names the kind of the error, and then says its words.
pub proof fn law_messages_name_the_kind(error: Error, res: String)
    requires
        call_ensures(Error::message, (&error,), res),
    ensures
        match error {
            Error::Config(words) => res@ == "Configuration error: "@ + words@,
            Error::WebSocket(words) => res@ == "WebSocket error: "@ + words@,
            Error::Mqtt(words) => res@ == "MQTT error: "@ + words@,
            Error::Json(words) => res@ == "JSON error: "@ + words@,
            Error::TxProcessing(words) => res@ == "Transaction processing error: "@ + words@,
            Error::Http(words) => res@ == "HTTP error: "@ + words@,
        },
{
}

} // verus!
