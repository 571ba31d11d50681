//! What can go wrong with the ledger.

use serde_json::Error as JsonError;
use vstd::prelude::*;

verus! {

/// Why `serde_json` could not read or write a value.
#[verifier::external_type_specification]
#[verifier::external_body]
pub struct ExJsonError(JsonError);

/// Crate-wide error type for the offline-first edge-payments ledger.
#[derive(Debug)]
pub enum Error {
    /// The database refused; the text is its own.
    Db(String),
    /// JSON could not be read or written.
    Json(JsonError),
    /// What was asked for is not there.
    NotFound(String),
    /// The request breaks a rule of the ledger.
    Invalid(String),
}

impl From<JsonError> for Error {
    fn from(e: JsonError) -> (r: Error) {
        Error::Json(e)
    }
}

impl vstd::std_specs::convert::FromSpecImpl<JsonError> for Error {
    open spec fn obeys_from_spec() -> bool {
        true
    }

    open spec fn from_spec(e: JsonError) -> Error {
        Error::Json(e)
    }
}

/// The message of a JSON error whose own text is `detail`.
pub fn json_message(detail: &str) -> (r: String)
    ensures
        r@ == "json error: "@ + detail@,
{
    let mut out: String = "json error: ".to_string();
    out.append(detail);
    out
}

impl Error {
    /// The error as a line of text: its kind, a colon, and its own text.
    pub fn message(&self) -> (r: String)
        ensures
            match *self {
                Error::Db(text) => r@ == "db error: "@ + text@,
                Error::Json(e) => exists|detail: String|
                    #[trigger] vstd::string::to_string_from_display_ensures::<JsonError>(
                        &e,
                        detail,
                    ) && r@ == "json error: "@ + detail@,
                Error::NotFound(text) => r@ == "not found: "@ + text@,
                Error::Invalid(text) => r@ == "invalid: "@ + text@,
            },
    {
        match self {
            Error::Db(text) => {
                let mut out: String = "db error: ".to_string();
                out.append(text.as_str());
                out
            },
            Error::Json(e) => json_message(e.to_string().as_str()),
            Error::NotFound(text) => {
                let mut out: String = "not found: ".to_string();
                out.append(text.as_str());
                out
            },
            Error::Invalid(text) => {
                let mut out: String = "invalid: ".to_string();
                out.append(text.as_str());
                out
            },
        }
    }
}

} // verus!
