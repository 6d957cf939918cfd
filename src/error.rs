//! The errors of the queue.

use vstd::prelude::*;

verus! {

/// Why an operation on the queue failed.
#[derive(Debug)]
#[non_exhaustive]
pub enum Error {
    /// The stored schema is newer than this library understands.
    DbTooNew { db_version: i64 },
    /// The stored schema version is older than any version this library can upgrade.
    UnknownVersion { db_version: i64 },
    /// A task with the same data already exists.
    DuplicateData,
    /// The job already has a start event.
    DuplicateStart,
    /// The job already has a finish event.
    DuplicateFinish,
    /// The worker has never claimed a job.
    NoCurrentJob,
    /// No task has this id.
    NoSuchTask,
    /// No job has this id.
    NoSuchJob,
    /// The adjusted repetition count would leave the range of a count.
    CountOutOfRange,
    /// No further id can be assigned.
    IdsExhausted,
    /// The stored rows do not form a valid queue.
    Corrupt,
    /// A stored command could not be encoded or decoded.
    Encoding(Box<bincode::ErrorKind>),
    /// The storage engine failed.
    Storage(rusqlite::Error),
}

} // verus!
