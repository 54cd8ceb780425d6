//! A secrets vault's core: the configuration model of a leader vault and its
//! partitions, path resolution, recipients handling and the merge engine's
//! decisions.
use vstd::prelude::*;

pub mod path;
pub mod text;
pub mod error;
pub mod vault;
pub mod config;
pub mod documents;
pub mod recipients;
pub mod merge;
pub mod help;

pub use config::{from_documents, select_vault, VaultDocument, VaultExt};
pub use documents::split_documents;
pub use error::VaultError;
pub use path::normalize;
pub use vault::{recipients_default, secrets_default, Vault, VaultKind};

verus! {

} // verus!
