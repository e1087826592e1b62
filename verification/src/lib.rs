//! Write-behind replication of a room's approved-participant set.
//!
//! The crate keeps an in-memory set of approved participant identifiers and
//! decides, purely as a state machine, when a snapshot of that set must be
//! shipped to a durable external store: at most one attempt is outstanding at
//! a time, bursts of mutations coalesce into a single follow-up attempt, and
//! failed attempts are retried with a bounded, jittered exponential backoff.
//! The host performs the actual network attempt and reports its outcome back
//! through [`driver::ApprovedUsers::tick`].

pub mod attempt;
pub mod backoff;
pub mod driver;
pub mod payload;
