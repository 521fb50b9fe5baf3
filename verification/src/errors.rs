//! Error taxonomy and process-wide option enums.

use vstd::prelude::*;

verus! {

/// Errors reported by the store and its queue engines.
///
/// Validation errors (`EmptyKey`, `EmptyValue`, `EmptyField`, `OpenFailed`
/// on an empty path) are rejected before any storage work is attempted.
/// The remaining variants surface a failure of the operation family that
/// their name carries. `WriteFailed`, `ReadFailed` and `InvalidNamespace`
/// belong to the taxonomy for callers to match on; the in-memory store
/// itself never fails a write or a read and hands out no invalid handle,
/// so its contracts never promise them.
#[derive(Clone, Copy, Debug, PartialEq, Eq, Structural)]
pub enum K2hError {
    /// The backing file could not be created or the path was empty.
    OpenFailed,
    /// A key argument was empty.
    EmptyKey,
    /// A value argument was empty.
    EmptyValue,
    /// Some other required field (attribute name, subkey name, path) was empty.
    EmptyField,
    /// A write into the namespace failed.
    WriteFailed,
    /// A read from the namespace failed.
    ReadFailed,
    /// A key (or subkey) could not be removed.
    RemoveFailed,
    /// The old key of a rename was absent, or the rename failed.
    RenameFailed,
    /// An attribute could not be attached to its key.
    AttrWriteFailed,
    /// The key has no attributes attached.
    NoAttributes,
    /// A subkey could not be written under its parent key.
    SubkeyWriteFailed,
    /// The key has no subkeys attached.
    NoSubkeys,
    /// A queue handle could not be created.
    QueueCreateFailed,
    /// An element could not be pushed into a queue.
    PushFailed,
    /// The namespace handle was invalid.
    InvalidNamespace,
    /// An iterator's initial position could not be established.
    NoMatch,
    /// A transaction operation failed or no transaction was active.
    TxFailed,
}

/// Level of detail selected for a diagnostic dump of the store.
#[derive(Clone, Copy, Debug, PartialEq, Eq, Structural)]
pub enum DumpLevel {
    HEADER,
    HASHTABLE,
    SUBHASHTABLE,
    ELEMENT,
    PAGE,
}

/// Verbosity level of the storage engine's own logging.
#[derive(Clone, Copy, Debug, PartialEq, Eq, Structural)]
pub enum DebugLevel {
    SILENT,
    ERROR,
    WARNING,
    MESSAGE,
}

} // verus!
