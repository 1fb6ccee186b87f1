//! The watcher's part of the reconciliation: which file events call for a
//! reload, and the snapshot that a reload yields.

use vstd::prelude::*;

use crate::error::RegistryError;
use crate::persisted::bytes_registry;
use crate::registry::Registry;
use crate::registry_snapshot::RegistrySnapshot;

verus! {

/// The kind of a change that the file system reports on the watched file.
#[derive(Debug, Clone, Copy, PartialEq, Eq, Structural)]
pub enum FileChange {
    /// The file's content was written.
    DataModified,
    /// Only the file's metadata (times, permissions) changed.
    MetadataModified,
    /// The file was renamed.
    Renamed,
    /// Some other or unknown modification.
    OtherModification,
    /// The file was created.
    Created,
    /// The file was removed.
    Removed,
    /// The file was read or opened.
    Accessed,
    /// Any other event.
    Other,
}

/// Whether `change` calls for reloading the registry: only a write of the
/// file's content does.
pub fn wants_reload(change: FileChange) -> (r: bool)
    ensures
        r == (change == FileChange::DataModified),
{
    match change {
        FileChange::DataModified => true,
        _ => false,
    }
}

/// The snapshot of the registry that the persisted bytes describe, or why
/// they describe none.
pub fn snapshot_from_csv(bytes: &[u8]) -> (r: Result<RegistrySnapshot, RegistryError>)
    ensures
        match (r, bytes_registry(bytes@)) {
            (Ok(s), Ok(m)) => s.wf() && s.spec_registry()@ == m,
            (Err(e), Err(f)) => e == f,
            _ => false,
        },
{
    match Registry::from_csv(bytes) {
        Ok(registry) => Ok(RegistrySnapshot::new(registry)),
        Err(e) => Err(e),
    }
}

} // verus!
