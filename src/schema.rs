//! Versions of the stored layout, and the decision of what opening a store must do.

use crate::error::Error;
use vstd::prelude::*;

verus! {

/// The layout version this library writes and understands.
pub const DB_VERSION: i64 = 2;

/// What opening a store with a given layout version must do next.
#[derive(Clone, Copy, Debug, PartialEq, Eq, Structural)]
pub enum Step {
    /// The layout is current: nothing to do.
    Current,
    /// Upgrade the layout by one version, from version `from`.
    Migrate { from: i64 },
}

/// The next step for a store at layout `version`: nothing where it is current, one
/// migration where it is older and known, and an error where it is newer than this library
/// (`DbTooNew`) or older than any known version (`UnknownVersion`).
pub fn upgrade_step(version: i64) -> (r: Result<Step, Error>)
    ensures
        version == DB_VERSION ==> r == Ok::<Step, Error>(Step::Current),
        1 <= version < DB_VERSION ==> r == Ok::<Step, Error>(Step::Migrate { from: version }),
        version > DB_VERSION <==> r matches Err(Error::DbTooNew { db_version }),
        r matches Err(Error::DbTooNew { db_version }) ==> db_version == version,
        version < 1 <==> r matches Err(Error::UnknownVersion { db_version }),
        r matches Err(Error::UnknownVersion { db_version }) ==> db_version == version,
{
    if version == DB_VERSION {
        Ok(Step::Current)
    } else if version > DB_VERSION {
        Err(Error::DbTooNew { db_version: version })
    } else if version >= 1 {
        Ok(Step::Migrate { from: version })
    } else {
        Err(Error::UnknownVersion { db_version: version })
    }
}

} // verus!
