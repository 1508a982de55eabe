//! API keys in the OS keychain (Windows Credential Manager, macOS Keychain,
//! Linux Secret Service, through the `keyring` crate). Keys never touch the
//! settings file or the database.
//!
//! What the keychain answers depends on the machine, so the functions that
//! call it state what holds of every answer; the functions named `*_outcome`
//! say exactly what each answer becomes.

use vstd::prelude::*;
use crate::error;
use crate::error::Result;
use crate::models::{ProviderId, provider_name};
use crate::text::{trim, trim_str, concat};

verus! {

#[verifier::external_type_specification]
#[verifier::external_body]
pub struct ExEntry(keyring::Entry);

/// Keychain service name of every key.
pub const SERVICE: &'static str = "zotero-notebook";

/// Message of an attempt to store a blank key.
pub const EMPTY_KEY: &'static str = "API key must not be empty";

/// A keychain failure: whether it is "no such entry", and its description.
#[derive(Debug, Clone, PartialEq)]
pub struct KeyFailure {
    pub no_entry: bool,
    pub message: String,
}

/// Calls `keyring::Entry::new(service, user)`; an error becomes a
/// [`KeyFailure`] (`no_entry` for `keyring::Error::NoEntry`, `message` its
/// `Display` text). Whether it succeeds depends on the platform store;
/// nothing is stated of the result.
#[verifier::external_body]
fn new_entry(service: &str, user: &str) -> core::result::Result<keyring::Entry, KeyFailure> {
    keyring::Entry::new(service, user).map_err(|e| KeyFailure {
        no_entry: matches!(e, keyring::Error::NoEntry),
        message: e.to_string(),
    })
}

/// Calls `keyring::Entry::set_password`; errors become [`KeyFailure`]s as
/// for [`new_entry`]. The outcome depends on the platform store; nothing
/// is stated of it.
#[verifier::external_body]
fn set_password(entry: &keyring::Entry, password: &str) -> core::result::Result<(), KeyFailure> {
    entry.set_password(password).map_err(|e| KeyFailure {
        no_entry: matches!(e, keyring::Error::NoEntry),
        message: e.to_string(),
    })
}

/// Calls `keyring::Entry::get_password`; errors become [`KeyFailure`]s as
/// for [`new_entry`]. The outcome depends on the platform store; nothing
/// is stated of it.
#[verifier::external_body]
fn get_password(entry: &keyring::Entry) -> core::result::Result<String, KeyFailure> {
    entry.get_password().map_err(|e| KeyFailure {
        no_entry: matches!(e, keyring::Error::NoEntry),
        message: e.to_string(),
    })
}

/// Calls `keyring::Entry::delete_credential`; errors become
/// [`KeyFailure`]s as for [`new_entry`]. The outcome depends on the
/// platform store; nothing is stated of it.
#[verifier::external_body]
fn delete_credential(entry: &keyring::Entry) -> core::result::Result<(), KeyFailure> {
    entry.delete_credential().map_err(|e| KeyFailure {
        no_entry: matches!(e, keyring::Error::NoEntry),
        message: e.to_string(),
    })
}

/// The keychain user name of a provider's key: `{provider}-api-key`.
pub fn keychain_user(provider: ProviderId) -> (r: String)
    ensures
        r@ == provider_name(provider) + "-api-key"@,
{
    concat(provider.as_str(), "-api-key")
}

/// `r` is a keychain error (any message).
pub open spec fn is_keychain_error<T>(r: Result<T>) -> bool {
    r matches Err(error::Error::Keychain(_))
}

/// A failed keychain call as the library's error.
pub fn keychain_error(f: KeyFailure) -> (e: error::Error)
    ensures
        e == error::Error::Keychain(f.message),
{
    error::Error::Keychain(f.message)
}

fn entry(provider: ProviderId) -> (r: Result<keyring::Entry>)
    ensures
        r is Ok || is_keychain_error(r),
{
    let user = keychain_user(provider);
    match new_entry(SERVICE, user.as_str()) {
        Ok(e) => Ok(e),
        Err(f) => Err(keychain_error(f)),
    }
}

/// What storing a key became: done, or a keychain error with its message.
pub fn store_outcome(outcome: core::result::Result<(), KeyFailure>) -> (r: Result<()>)
    ensures
        match outcome {
            Ok(()) => r is Ok,
            Err(f) => r == Err::<(), error::Error>(error::Error::Keychain(f.message)),
        },
{
    match outcome {
        Ok(()) => Ok(()),
        Err(f) => Err(keychain_error(f)),
    }
}

/// Stores a provider's key (trimmed). A blank key is refused before the
/// keychain is touched.
pub fn save_key(provider: ProviderId, key: &str) -> (r: Result<()>)
    ensures
        trim(key@).len() == 0 ==> (r matches Err(error::Error::Other(m)) && m@ == EMPTY_KEY@),
        trim(key@).len() > 0 ==> (r is Ok || is_keychain_error(r)),
{
    let key = trim_str(key);
    if key.as_str().is_empty() {
        return Err(error::Error::Other(EMPTY_KEY.to_owned()));
    }
    let e = entry(provider)?;
    store_outcome(set_password(&e, key.as_str()))
}

/// What a key lookup became: the key; no key when the keychain has no
/// such entry; a keychain error otherwise.
pub fn lookup_outcome(outcome: core::result::Result<String, KeyFailure>) -> (r: Result<Option<String>>)
    ensures
        match outcome {
            Ok(k) => r == Ok::<Option<String>, error::Error>(Some(k)),
            Err(f) => if f.no_entry {
                r == Ok::<Option<String>, error::Error>(None)
            } else {
                r == Err::<Option<String>, error::Error>(error::Error::Keychain(f.message))
            },
        },
{
    match outcome {
        Ok(k) => Ok(Some(k)),
        Err(f) => if f.no_entry {
            Ok(None)
        } else {
            Err(keychain_error(f))
        },
    }
}

/// A provider's stored key, if any.
pub fn get_key(provider: ProviderId) -> (r: Result<Option<String>>)
    ensures
        r is Ok || is_keychain_error(r),
{
    let e = entry(provider)?;
    lookup_outcome(get_password(&e))
}

/// What a key lookup says of the key's presence: whether a key came back;
/// a failed lookup stays that failure.
pub fn presence_outcome(lookup: Result<Option<String>>) -> (r: Result<bool>)
    ensures
        match lookup {
            Ok(k) => r == Ok::<bool, error::Error>(k is Some),
            Err(e) => r == Err::<bool, error::Error>(e),
        },
{
    match lookup {
        Ok(k) => Ok(k.is_some()),
        Err(e) => Err(e),
    }
}

/// Whether a provider has a stored key.
pub fn has_key(provider: ProviderId) -> (r: Result<bool>)
    ensures
        r is Ok || is_keychain_error(r),
{
    presence_outcome(get_key(provider))
}

/// What a deletion became: done (also when there was nothing to delete),
/// or a keychain error.
pub fn deletion_outcome(outcome: core::result::Result<(), KeyFailure>) -> (r: Result<()>)
    ensures
        match outcome {
            Ok(()) => r is Ok,
            Err(f) => if f.no_entry {
                r is Ok
            } else {
                r == Err::<(), error::Error>(error::Error::Keychain(f.message))
            },
        },
{
    match outcome {
        Ok(()) => Ok(()),
        Err(f) => if f.no_entry {
            Ok(())
        } else {
            Err(keychain_error(f))
        },
    }
}

/// Removes a provider's key; removing a missing key succeeds.
pub fn delete_key(provider: ProviderId) -> (r: Result<()>)
    ensures
        r is Ok || is_keychain_error(r),
{
    let e = entry(provider)?;
    deletion_outcome(delete_credential(&e))
}

} // verus!
