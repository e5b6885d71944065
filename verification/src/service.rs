//! Start-up of the contact service: waiting for the database.

use vstd::prelude::*;

verus! {

/// How many times the service tries to reach the database before giving up.
pub const DB_ATTEMPTS: u32 = 30;

/// What to do after an attempt to reach the database.
pub enum DbWait {
    /// The database answered: go on.
    Ready,
    /// Wait a second and try again.
    Retry,
    /// Stop: the database did not answer in time.
    GiveUp,
}

/// What to do after attempt `attempt` (counted from 1) to reach the database.
pub fn db_wait_step(attempt: u32, connected: bool) -> (r: DbWait)
    requires
        1 <= attempt <= DB_ATTEMPTS,
    ensures
        connected ==> r is Ready,
        !connected && attempt < DB_ATTEMPTS ==> r is Retry,
        !connected && attempt == DB_ATTEMPTS ==> r is GiveUp,
{
    if connected {
        DbWait::Ready
    } else if attempt < DB_ATTEMPTS {
        DbWait::Retry
    } else {
        DbWait::GiveUp
    }
}

} // verus!
