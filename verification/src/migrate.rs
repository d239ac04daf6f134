//! The name and version a registry goes by, and the rule for moving it to
//! a newer version.

use vstd::prelude::*;
use crate::contract::State;
use crate::error::{ContractError, MigrationError};
use crate::precedence::{compare_versions, parse_version, parsed_version, version_order, Parts, Version};
use crate::rules::{StateModel, VersionModel};
use crate::text::same_text;

verus! {

/// A name and a version.
#[derive(Debug, PartialEq, Eq)]
pub struct ContractVersion {
    pub contract: String,
    pub version: String,
}

impl View for ContractVersion {
    type V = VersionModel;

    open spec fn view(&self) -> VersionModel {
        VersionModel { contract: self.contract@, version: self.version@ }
    }
}

impl Clone for ContractVersion {
    fn clone(&self) -> (r: ContractVersion)
        ensures
            r@ == self@,
    {
        ContractVersion { contract: self.contract.clone(), version: self.version.clone() }
    }
}

/// What the order of the kept version to the new one means for a
/// migration: a later one is kept as it is and the migration is turned
/// down, an earlier one gives way to the new, an equal one stays.
pub open spec fn step_for(order: Option<i8>) -> Result<bool, ContractError> {
    match order {
        None => Err(ContractError::Migration(MigrationError::InvalidVersion)),
        Some(c) => if c > 0 {
            Err(ContractError::Migration(MigrationError::NewerVersion))
        } else {
            Ok(c < 0)
        },
    }
}

/// Whether the new version is to be recorded, given how the kept one
/// stands to it.
pub fn migration_step(order: Option<i8>) -> (r: Result<bool, ContractError>)
    ensures
        r == step_for(order),
{
    match order {
        None => Err(ContractError::Migration(MigrationError::InvalidVersion)),
        Some(c) => if c > 0 {
            Err(ContractError::Migration(MigrationError::NewerVersion))
        } else {
            Ok(c < 0)
        },
    }
}

/// What a migration of the registry `m` to `new_version` under `name`
/// leaves behind, and the version it found.
pub open spec fn migrated(m: StateModel, name: Seq<char>, new_version: Seq<char>) -> (StateModel, Result<
    Parts,
    ContractError,
>) {
    if parsed_version(new_version) is None {
        (m, Err(ContractError::Migration(MigrationError::InvalidVersion)))
    } else if m.version is None {
        (m, Err(ContractError::Migration(MigrationError::NoVersion)))
    } else if parsed_version(m.version->0.version) is None {
        (m, Err(ContractError::Migration(MigrationError::InvalidVersion)))
    } else if m.version->0.contract != name {
        (m, Err(ContractError::Migration(MigrationError::ContractMismatch)))
    } else {
        let kept = parsed_version(m.version->0.version)->0;
        match step_for(version_order(kept, parsed_version(new_version)->0)) {
            Err(e) => (m, Err(e)),
            Ok(record) => if record {
                (StateModel { version: Some(VersionModel { contract: name, version: new_version }), ..m }, Ok(kept))
            } else {
                (m, Ok(kept))
            },
        }
    }
}

/// Records the name and version the registry now goes by.
pub fn set_contract_version(state: &mut State, name: &str, version: &str) -> (r: Result<(), ContractError>)
    requires
        old(state).wf(),
    ensures
        final(state).wf(),
        r is Ok,
        final(state)@ == (StateModel {
            version: Some(VersionModel { contract: name@, version: version@ }),
            ..old(state)@
        }),
{
    state.set_version(ContractVersion { contract: name.to_string(), version: version.to_string() });
    Ok(())
}

/// What a result carries, as the rule speaks of it.
pub open spec fn found(r: Result<Version, ContractError>) -> Result<Parts, ContractError> {
    match r {
        Ok(v) => Ok(v@),
        Err(e) => Err(e),
    }
}

/// Moves the registry to `new_version`, if it goes by `name` and its
/// version is not a later one; hands out the version it had.
pub fn ensure_from_older_version(state: &mut State, name: &str, new_version: &str) -> (r: Result<
    Version,
    ContractError,
>)
    requires
        old(state).wf(),
    ensures
        final(state).wf(),
        (final(state)@, found(r)) == migrated(old(state)@, name@, new_version@),
{
    let version = match parse_version(new_version) {
        Ok(v) => v,
        Err(_) => {
            return Err(ContractError::Migration(MigrationError::InvalidVersion));
        },
    };
    let stored = match state.contract_version() {
        Some(stored) => stored.clone(),
        None => {
            return Err(ContractError::Migration(MigrationError::NoVersion));
        },
    };
    let storage_version = match parse_version(stored.version.as_str()) {
        Ok(v) => v,
        Err(_) => {
            return Err(ContractError::Migration(MigrationError::InvalidVersion));
        },
    };
    if !same_text(name, stored.contract.as_str()) {
        return Err(ContractError::Migration(MigrationError::ContractMismatch));
    }
    let record = match migration_step(compare_versions(&storage_version, &version)) {
        Ok(record) => record,
        Err(e) => {
            return Err(e);
        },
    };
    if record {
        let _ = set_contract_version(state, name, new_version);
    }
    Ok(storage_version)
}

} // verus!
