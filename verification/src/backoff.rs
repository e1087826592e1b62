//! Jittered exponential backoff between retries of a failed replication
//! attempt.

use vstd::arithmetic::power2::{lemma2_to64, pow2};
use vstd::prelude::*;

verus! {

/// Base delay before the `n`-th retry, in milliseconds: `2^n` seconds.
pub open spec fn backoff_base_ms(n: nat) -> nat {
    pow2(n) * 1000
}

/// The window inside which the `n`-th retry must be scheduled: at least the
/// base delay and strictly less than twice the base delay, so consecutive
/// retry delays grow exponentially while a uniform jitter spreads them out.
pub open spec fn in_backoff_window(n: nat, delay_ms: int) -> bool {
    backoff_base_ms(n) <= delay_ms < 2 * backoff_base_ms(n)
}

/// Relies on rand::random: draws a value from the thread-local generator;
/// nothing is promised of the result.
pub assume_specification<T>[ rand::random::<T> ]() -> (r: T)
    where
        rand::distributions::Standard: rand::distributions::Distribution<T>,
;

/// The base delay before the `n`-th retry, as a machine integer.
fn backoff_base(retry_count: u8) -> (r: u64)
    requires
        1 <= retry_count <= 3,
    ensures
        r == backoff_base_ms(retry_count as nat),
        2000 <= r <= 8000,
{
    proof {
        lemma2_to64();
    }
    if retry_count == 1 {
        2000
    } else if retry_count == 2 {
        4000
    } else {
        8000
    }
}

/// Draws a jittered delay for the `n`-th retry: the base delay plus a random
/// jitter of strictly less than the base delay again.
pub fn backoff_delay_ms(retry_count: u8) -> (d: u64)
    requires
        1 <= retry_count <= 3,
    ensures
        in_backoff_window(retry_count as nat, d as int),
{
    let base: u64 = backoff_base(retry_count);
    let raw: u64 = rand::random::<u64>();
    let jitter: u64 = raw % base;
    base + jitter
}

} // verus!
