//! Timing rules and outcome classification for one replication attempt.
//!
//! An attempt races a fixed per-attempt timeout against the network exchange;
//! once a response has arrived the attempt still waits out the remainder of a
//! minimum interval before it reports as finished, which throttles the
//! request rate and lets rapid successive mutations coalesce.

use vstd::prelude::*;

verus! {

/// Upper bound on how long one attempt may run, in milliseconds.
pub const PERSISTENCE_TIMEOUT_MS: u64 = 10000;

/// Lower bound on how long one attempt takes, in milliseconds; two
/// back-to-back attempts are always separated by at least this much.
pub const MINIMUM_REQUEST_INTERVAL_MS: u64 = 100;

/// Terminal outcome of one replication attempt, as the driver interprets it.
#[derive(Clone, Copy, Debug, PartialEq, Eq, Structural)]
pub enum AttemptOutcome {
    /// The remote store acknowledged the snapshot (HTTP 200).
    Success,
    /// The remote store answered with any other status, or the attempt timed
    /// out locally; worth retrying.
    Rejected,
    /// The exchange could not complete at all; treated as a likely recurring
    /// local fault and deliberately not retried.
    TransportFailure,
    /// The attempt reported finished but yielded no observable result; an
    /// internal anomaly, not retried.
    NoResult,
}

/// Maps the status of an obtained response to an outcome: only 200 counts as
/// success, every other status (including a locally synthesized timeout
/// status) needs a retry.
pub fn classify_status(status: u16) -> (r: AttemptOutcome)
    ensures
        r == (if status == 200 {
            AttemptOutcome::Success
        } else {
            AttemptOutcome::Rejected
        }),
{
    if status == 200 {
        AttemptOutcome::Success
    } else {
        AttemptOutcome::Rejected
    }
}

/// How much longer an attempt must keep running after its response arrived
/// `elapsed_ms` after launch, so that the attempt never finishes before the
/// minimum interval has passed.
pub fn settle_delay_ms(elapsed_ms: u64) -> (r: u64)
    ensures
        r == (if elapsed_ms < MINIMUM_REQUEST_INTERVAL_MS {
            MINIMUM_REQUEST_INTERVAL_MS - elapsed_ms
        } else {
            0
        }),
        elapsed_ms + r >= MINIMUM_REQUEST_INTERVAL_MS,
{
    if elapsed_ms < MINIMUM_REQUEST_INTERVAL_MS {
        MINIMUM_REQUEST_INTERVAL_MS - elapsed_ms
    } else {
        0
    }
}

} // verus!
