//! Core logic of a desktop application that authenticates its user against a
//! remote identity provider through a browser deep link, persists secrets in
//! an encrypted single-value vault, and keeps a hot-swappable signing identity
//! for a backend session that can be reconnected on demand.
//!
//! Everything here is pure state and byte-level logic: file, network and UI
//! plumbing live with the embedding application, which hands plain values in
//! and out.

use vstd::prelude::*;

pub mod b64;
pub mod bootstrap;
pub mod cbor;
pub mod codec;
pub mod crypto;
pub mod deeplink;
pub mod delegation;
pub mod identity;
pub mod keys;
pub mod model;
pub mod reconnect;
pub mod secret;
pub mod settings;
pub mod utils;
pub mod vault;

verus! {

/// The error taxonomy of the library.
///
/// `Config` and `Crypto` are fatal at startup (a malformed or tampered state
/// file must not be silently replaced); `Protocol`, `UnknownKey` and
/// `UnknownAction` are recoverable and leave prior state untouched.
#[derive(Debug)]
pub enum Error {
    /// A persisted state file is structurally invalid.
    Config(String),
    /// Authenticated decryption failed or could not be performed.
    Crypto(String),
    /// A deep-link URL or its payload is malformed.
    Protocol(String),
    /// A delegation chain failed verification or has expired.
    ExpiredOrInvalidDelegation(String),
    /// A setting key outside the fixed enumeration was used.
    UnknownKey(String),
    /// A deep-link action this version does not understand.
    UnknownAction(String),
    /// The backend session could not be (re)established.
    BackendConnect(String),
}

impl Error {
    /// The human-readable description carried by the error.
    pub fn message(&self) -> (r: &String)
        ensures
            r == self.spec_message(),
    {
        match self {
            Error::Config(m) => m,
            Error::Crypto(m) => m,
            Error::Protocol(m) => m,
            Error::ExpiredOrInvalidDelegation(m) => m,
            Error::UnknownKey(m) => m,
            Error::UnknownAction(m) => m,
            Error::BackendConnect(m) => m,
        }
    }

    /// The message as a spec-level value.
    pub open spec fn spec_message(&self) -> String {
        match self {
            Error::Config(m) => *m,
            Error::Crypto(m) => *m,
            Error::Protocol(m) => *m,
            Error::ExpiredOrInvalidDelegation(m) => *m,
            Error::UnknownKey(m) => *m,
            Error::UnknownAction(m) => *m,
            Error::BackendConnect(m) => *m,
        }
    }

    /// True for the errors that make a vault unusable at startup.
    pub open spec fn is_fatal(&self) -> bool {
        self is Config || self is Crypto
    }
}

/// The plaintext vault cell holding the application state.
pub type AppStateCell = crate::vault::PlainCell;

/// The encrypted vault cell holding the secret state.
pub type SecretStateCell = crate::vault::CipherCell;

} // verus!
