use vstd::prelude::*;

verus! {

/// The closed taxonomy of failures the engine can report.
///
/// Absence of a key is never an error: `get`, `delete` and `multi_get`
/// report missing keys through their result values, not through this type.
#[derive(Clone, Copy, Debug, PartialEq, Eq, Structural)]
pub enum KvError {
    /// An operation was attempted on a handle that is not open (never opened,
    /// or already closed).
    NotOpenFailure,
    /// The underlying storage read or write path failed (disk, corruption,
    /// permission).
    IOFailure,
    /// A mutation was attempted on a read-only or secondary handle.
    ReadOnlyFailure,
    /// A secondary handle could not reach the primary's log state.
    ReplicationFailure,
    /// A snapshot export failed.
    BackupFailure,
    /// A snapshot import failed, including the case that no backup exists.
    RestoreFailure,
}

} // verus!
