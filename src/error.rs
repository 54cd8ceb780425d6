//! Errors of the vault configuration model, and their messages.
use vstd::prelude::*;
use crate::text::{decimal, decimal_string};

verus! {

/// What went wrong in the vault configuration model.
#[derive(Debug, Clone, PartialEq, Eq)]
pub enum VaultError {
    /// A numeric selector named no document.
    IndexOutOfBounds { index: usize },
    /// A name selector matched no document.
    UnknownName { name: String },
    /// One secrets directory lies inside another; both are given as displayed.
    Overlap { contained: String, container: String },
    /// A recipients file is shared by two vaults.
    DuplicateRecipients { path: String },
    /// A partition cannot be written as a configuration of its own.
    PartitionUnsupported,
    /// The configuration file path has no parent directory.
    InvalidVaultPath { path: String },
    /// No directory for exported keys is configured.
    NoGpgKeysDirectory { vault_path: String },
    /// The recipients file lists nobody.
    NoRecipients { recipients: String },
    /// The configuration file is not well-formed YAML.
    YamlSyntax { cause: String },
}

/// The human-readable message of an error.
pub open spec fn error_message(e: VaultError) -> Seq<char> {
    match e {
        VaultError::IndexOutOfBounds { index } => "Vault index "@ + decimal(index as nat)
            + " is out of bounds."@,
        VaultError::UnknownName { name } => "Vault name '"@ + name@ + "' is unknown."@,
        VaultError::Overlap { contained, container } => "Partition at '"@ + contained@
            + "' is contained in another partitions resources directory at '"@ + container@
            + "'"@,
        VaultError::DuplicateRecipients { path } => "Recipients path '"@ + path@
            + "' is already used, but must be unique across all partitions"@,
        VaultError::PartitionUnsupported => "Cannot write a partition as a vault configuration"@,
        VaultError::InvalidVaultPath { path } => "The vault file path '"@ + path@
            + "' is invalid."@,
        VaultError::NoGpgKeysDirectory { vault_path } => "The vault at '"@ + vault_path@
            + "' does not have a gpg_keys directory configured."@,
        VaultError::NoRecipients { recipients } => "No recipients found in recipients file at '"@
            + recipients@ + "'."@,
        VaultError::YamlSyntax { cause } => "YAML deserialization failed: "@ + cause@,
    }
}

impl VaultError {
    /// The human-readable message of this error.
    pub fn message(&self) -> (r: String)
        ensures
            r@ == error_message(*self),
    {
        match self {
            VaultError::IndexOutOfBounds { index } => {
                let mut r = String::from_str("Vault index ");
                r.append(decimal_string(*index).as_str());
                r.append(" is out of bounds.");
                r
            },
            VaultError::UnknownName { name } => {
                let mut r = String::from_str("Vault name '");
                r.append(name.as_str());
                r.append("' is unknown.");
                r
            },
            VaultError::Overlap { contained, container } => {
                let mut r = String::from_str("Partition at '");
                r.append(contained.as_str());
                r.append("' is contained in another partitions resources directory at '");
                r.append(container.as_str());
                r.append("'");
                r
            },
            VaultError::DuplicateRecipients { path } => {
                let mut r = String::from_str("Recipients path '");
                r.append(path.as_str());
                r.append("' is already used, but must be unique across all partitions");
                r
            },
            VaultError::PartitionUnsupported => {
                String::from_str("Cannot write a partition as a vault configuration")
            },
            VaultError::InvalidVaultPath { path } => {
                let mut r = String::from_str("The vault file path '");
                r.append(path.as_str());
                r.append("' is invalid.");
                r
            },
            VaultError::NoGpgKeysDirectory { vault_path } => {
                let mut r = String::from_str("The vault at '");
                r.append(vault_path.as_str());
                r.append("' does not have a gpg_keys directory configured.");
                r
            },
            VaultError::NoRecipients { recipients } => {
                let mut r = String::from_str("No recipients found in recipients file at '");
                r.append(recipients.as_str());
                r.append("'.");
                r
            },
            VaultError::YamlSyntax { cause } => {
                let mut r = String::from_str("YAML deserialization failed: ");
                r.append(cause.as_str());
                r
            },
        }
    }
}

} // verus!
