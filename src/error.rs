//! Why a persisted registry could not be read.

use vstd::prelude::*;

verus! {

/// A failure to read the persisted registry.
#[derive(Debug, Clone, Copy, PartialEq, Eq, Structural)]
pub enum RegistryError {
    /// The bytes are not well-formed CSV.
    MalformedCsv,
    /// There is no header row.
    MissingHeader,
    /// The header lacks one of the columns `name`, `enabled`, `installed`.
    MissingColumn,
    /// A row has no field under one of those columns.
    ShortRow,
    /// An `enabled` or `installed` field is neither `true` nor `false`.
    InvalidFlag,
}

} // verus!
