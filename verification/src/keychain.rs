//! The meaning of system keychain answers for stored API keys.
use vstd::prelude::*;
use vstd::string::*;
use crate::text::owned;

verus! {

/// The keychain service under which API keys are stored, one entry per
/// provider name.
pub fn keychain_service() -> (r: &'static str)
    ensures
        r@ == "io.firstfinger.hey"@,
{
    "io.firstfinger.hey"
}

/// Why a keychain operation failed.
pub enum KeyringFailure {
    /// The keychain holds no entry for the provider.
    NoEntry,
    /// Any other keychain error, with its message.
    Other(String),
}

/// The stored key after a keychain lookup: the password when there is one,
/// nothing when there is no entry, and an error for any other failure.
pub fn lookup_result(answer: Result<String, KeyringFailure>) -> (r: Result<Option<String>, String>)
    ensures
        match answer {
            Ok(p) => r matches Ok(Some(k)) && k@ == p@,
            Err(KeyringFailure::NoEntry) => r matches Ok(None),
            Err(KeyringFailure::Other(e)) => r matches Err(m) && m@ == "Keyring error: "@ + e@,
        },
{
    match answer {
        Ok(p) => Ok(Some(p)),
        Err(KeyringFailure::NoEntry) => Ok(None),
        Err(KeyringFailure::Other(e)) => {
            let mut m = owned("Keyring error: ");
            m.append(e.as_str());
            Err(m)
        },
    }
}

/// The outcome of deleting a key: deleting a key that is not there is no
/// error; any other failure is.
pub fn deletion_result(answer: Result<(), KeyringFailure>) -> (r: Result<(), String>)
    ensures
        match answer {
            Ok(_) => r is Ok,
            Err(KeyringFailure::NoEntry) => r is Ok,
            Err(KeyringFailure::Other(e)) => r matches Err(m) && m@ == "Failed to delete key: "@ + e@,
        },
{
    match answer {
        Ok(_) => Ok(()),
        Err(KeyringFailure::NoEntry) => Ok(()),
        Err(KeyringFailure::Other(e)) => {
            let mut m = owned("Failed to delete key: ");
            m.append(e.as_str());
            Err(m)
        },
    }
}

} // verus!
