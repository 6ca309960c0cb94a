//! The clock that rows are dated by.

use vstd::prelude::*;

verus! {

/// Calls `SystemTime::now` and `duration_since(UNIX_EPOCH)`: whole seconds
/// since the Unix epoch, or `None` when the clock is set before it. What the
/// clock says is not for this library to know.
#[verifier::external_body]
fn since_epoch() -> (seconds: Option<u64>) {
    std::time::SystemTime::now()
        .duration_since(std::time::UNIX_EPOCH)
        .ok()
        .map(|since| since.as_secs())
}

pub open spec fn dated(since: Option<u64>) -> i64 {
    match since {
        Some(seconds) => seconds as i64,
        None => 0,
    }
}

/// The date that a reading of the clock gives; the epoch itself for a clock
/// set before it.
pub fn date_of(since: Option<u64>) -> (at: i64)
    ensures
        at == dated(since),
{
    match since {
        Some(seconds) => seconds as i64,
        None => 0,
    }
}

/// Seconds since the Unix epoch: the date that the clock's reading gives. Any
/// number can come of it, so nothing is promised.
pub fn now() -> (at: i64) {
    date_of(since_epoch())
}

/// A clock that is set is read as it is; one set before the epoch gives that.
pub proof fn lemma_the_clock_is_read(seconds: u64)
    requires
        seconds <= i64::MAX,
    ensures
        dated(Some(seconds)) == seconds,
        dated(None) == 0,
{
}

}
