//! How a command can fail.

use vstd::prelude::*;

verus! {

/// Why a migration is turned down.
#[derive(Clone, Copy, Debug, PartialEq, Eq, Structural)]
pub enum MigrationError {
    /// A version that cannot be read, or two that cannot be compared.
    InvalidVersion,
    /// The registry has no name and version yet.
    NoVersion,
    /// The registry goes by another name.
    ContractMismatch,
    /// The registry is at a later version already.
    NewerVersion,
}

/// Why a command is turned down.
#[derive(Clone, Copy, Debug, PartialEq, Eq, Structural)]
pub enum ContractError {
    /// The caller is not on the whitelist.
    Unauthorized,
    /// A topic that was referred to is not registered.
    NotFound,
    /// The topic is registered already.
    AlreadyExists,
    /// The topic is still referred to by an announcement.
    InUse,
    /// An empty batch, or a threshold that cannot be computed.
    InvalidInput,
    /// A migration that is turned down.
    Migration(MigrationError),
}

} // verus!
