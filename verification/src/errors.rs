//! Errors of the secret store, one per failure stage: credential acquisition,
//! client construction, a single secret fetch, and lookup of an absent key.

use vstd::prelude::*;

verus! {

/// What can go wrong while building or querying the store. Every construction
/// failure is fatal: there is no partial store.
#[derive(Debug)]
pub enum VaultError {
    /// Ambient credential acquisition failed.
    Credential,
    /// The vault client could not be built from the given address.
    ClientInit,
    /// The named key could not be fetched from the vault.
    SecretFetch(String),
    /// Lookup requested a key the store does not hold.
    MissingKey(String),
}

} // verus!
