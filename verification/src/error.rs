//! The library's error type.

use vstd::prelude::*;
use crate::text::{concat, decimal, decimal_spec};

verus! {

/// Everything that can go wrong talking to Zotero, the plugin, an LLM
/// provider, the keychain or the sidecar store.
#[derive(Debug, Clone, PartialEq)]
pub enum Error {
    /// Nothing is listening on the Zotero port (Zotero is not running).
    ZoteroOffline(String),
    /// Zotero is running but the companion plugin did not answer.
    PluginMissing,
    /// Zotero rejected the request (e.g. "Allow other applications" is off).
    ZoteroRejected { status: u16, message: String },
    /// Transport-level HTTP failure (its description).
    Http(String),
    /// An LLM provider reported a failure.
    Llm { provider: String, message: String },
    /// No API key is stored for the named provider.
    MissingApiKey(String),
    /// The OS keychain failed.
    Keychain(String),
    /// The sidecar database failed.
    Db(String),
    /// A file-system operation failed.
    Io(String),
    /// A peer answered with something that does not fit the contract.
    InvalidResponse(String),
    /// Anything else.
    Other(String),
}

/// The library's `Result`.
pub type Result<T> = core::result::Result<T, Error>;

/// The message of an error, as shown to the user.
pub open spec fn message_spec(e: Error) -> Seq<char> {
    match e {
        Error::ZoteroOffline(u) => "Zotero is not running (no server on "@ + u@ + ")"@,
        Error::PluginMissing => "Zotero Notebook plugin is not installed or not responding"@,
        Error::ZoteroRejected { status, message } => "Zotero rejected the request (HTTP "@
            + decimal_spec(status as nat) + "): "@ + message@,
        Error::Http(d) => "HTTP error: "@ + d@,
        Error::Llm { provider, message } => "LLM provider error ("@ + provider@ + "): "@ + message@,
        Error::MissingApiKey(p) => "API key for "@ + p@ + " is not configured"@,
        Error::Keychain(d) => "keychain error: "@ + d@,
        Error::Db(d) => "database error: "@ + d@,
        Error::Io(d) => "I/O error: "@ + d@,
        Error::InvalidResponse(d) => "invalid response: "@ + d@,
        Error::Other(m) => m@,
    }
}

impl Error {
    /// The message shown to the user (what the error's `Display` prints).
    pub fn to_string(&self) -> (r: String)
        ensures
            r@ == message_spec(*self),
    {
        match self {
            Error::ZoteroOffline(u) => {
                let a = concat("Zotero is not running (no server on ", u.as_str());
                concat(a.as_str(), ")")
            },
            Error::PluginMissing => "Zotero Notebook plugin is not installed or not responding".to_owned(),
            Error::ZoteroRejected { status, message } => {
                let a = concat("Zotero rejected the request (HTTP ", decimal(*status as u64).as_str());
                let a = concat(a.as_str(), "): ");
                concat(a.as_str(), message.as_str())
            },
            Error::Http(d) => concat("HTTP error: ", d.as_str()),
            Error::Llm { provider, message } => {
                let a = concat("LLM provider error (", provider.as_str());
                let a = concat(a.as_str(), "): ");
                concat(a.as_str(), message.as_str())
            },
            Error::MissingApiKey(p) => {
                let a = concat("API key for ", p.as_str());
                concat(a.as_str(), " is not configured")
            },
            Error::Keychain(d) => concat("keychain error: ", d.as_str()),
            Error::Db(d) => concat("database error: ", d.as_str()),
            Error::Io(d) => concat("I/O error: ", d.as_str()),
            Error::InvalidResponse(d) => concat("invalid response: ", d.as_str()),
            Error::Other(m) => m.clone(),
        }
    }

    /// An LLM error attributed to `provider`.
    pub fn llm(provider: String, message: String) -> (e: Error)
        ensures
            e == (Error::Llm { provider, message }),
    {
        Error::Llm { provider, message }
    }
}

} // verus!
