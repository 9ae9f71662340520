//! Small utilities around the core.

use vstd::prelude::*;

use crate::errors::ClientError;

verus! {

/// Relies on `std::time::SystemTime::now` and `duration_since` against
/// `UNIX_EPOCH`: the current Unix time in whole seconds, or nothing when the
/// system clock reads before the epoch. The result depends on the clock, so
/// nothing is promised of it.
#[verifier::external_body]
fn clock_unix_secs() -> (r: Option<u64>) {
    match std::time::SystemTime::now().duration_since(std::time::UNIX_EPOCH) {
        Ok(d) => Some(d.as_secs()),
        Err(_) => None,
    }
}

/// The current Unix time in whole seconds. Fails only when the system clock
/// reads before the Unix epoch; the clock is a collaborator, so its failure
/// is surfaced as a `StorageError`.
pub fn get_time() -> (r: Result<u64, ClientError>)
    ensures
        r matches Err(e) ==> e matches ClientError::StorageError(_),
{
    match clock_unix_secs() {
        Some(t) => Ok(t),
        None => Err(ClientError::StorageError("clock reads before the Unix epoch".to_owned())),
    }
}

} // verus!
