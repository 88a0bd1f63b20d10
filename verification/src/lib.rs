//! A fail-fast secret store: an immutable mapping from key names to secret
//! values, built once from the values a vault resolved for a requested list
//! of keys, and exposing only a lookup that fails loudly on a missing key.

mod builder;
mod errors;
mod model;
mod store;

pub use builder::VaultBuilder;
pub use errors::VaultError;
pub use model::lemma_complete_resolution_lookup;
pub use model::lemma_empty_resolution;
pub use model::lemma_last_write_wins;
pub use model::lemma_resolved_map_domain;
pub use model::resolved_map;
pub use model::vault_entries;
pub use store::Vault;
pub use store::VaultStorage;
