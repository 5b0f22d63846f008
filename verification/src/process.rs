//! What the agent tracks of a terminal's process, and how long it waits
//! before restarting one.

use crate::types::TerminalStatus;
use vstd::prelude::*;

verus! {

#[verifier::external_type_specification]
#[verifier::external_body]
pub struct ExInstant(std::time::Instant);

/// The status of a process, its exit code and when it last gave a sign of
/// life.
pub struct ProcessState {
    pub status: TerminalStatus,
    pub exit_code: Option<i32>,
    pub last_heartbeat: Option<std::time::Instant>,
}

/// The current instant.
/// Calls `std::time::Instant::now`; the clock's value is not stated.
#[verifier::external_body]
fn instant_now() -> std::time::Instant {
    std::time::Instant::now()
}

impl ProcessState {
    /// A process that runs, has not exited, and gave a sign of life now.
    pub fn running() -> (s: ProcessState)
        ensures
            s.status == TerminalStatus::Running,
            s.exit_code is None,
            s.last_heartbeat is Some,
    {
        ProcessState {
            status: TerminalStatus::Running,
            exit_code: None,
            last_heartbeat: Some(instant_now()),
        }
    }
}

/// The restart delay in milliseconds: 250 ms, doubled for each earlier
/// attempt (counting at most five), and never more than 5 s.
pub open spec fn backoff_millis(attempt: u32) -> nat {
    if attempt == 0 {
        250
    } else if attempt == 1 {
        500
    } else if attempt == 2 {
        1000
    } else if attempt == 3 {
        2000
    } else if attempt == 4 {
        4000
    } else {
        5000
    }
}

/// The restart delay in milliseconds before attempt `attempt`.
pub fn backoff_delay_millis(attempt: u32) -> (ms: u64)
    ensures
        ms == backoff_millis(attempt),
{
    if attempt == 0 {
        250
    } else if attempt == 1 {
        500
    } else if attempt == 2 {
        1000
    } else if attempt == 3 {
        2000
    } else if attempt == 4 {
        4000
    } else {
        5000
    }
}

/// The duration of `ms` milliseconds.
pub uninterp spec fn duration_of_millis(ms: u64) -> std::time::Duration;

/// A duration of `ms` milliseconds.
/// Calls `std::time::Duration::from_millis`; its result is named by
/// `duration_of_millis`.
#[verifier::external_body]
fn duration_from_millis(ms: u64) -> (d: std::time::Duration)
    ensures
        d == duration_of_millis(ms),
{
    std::time::Duration::from_millis(ms)
}

/// The delay before restart attempt `attempt`.
pub fn backoff_delay(attempt: u32) -> (d: std::time::Duration)
    ensures
        d == duration_of_millis(backoff_millis(attempt) as u64),
{
    duration_from_millis(backoff_delay_millis(attempt))
}

} // verus!

verus! {

/// The restart delay never shrinks as attempts go on, starts at 250 ms and
/// never exceeds 5 s.
pub proof fn lemma_backoff_monotone(a: u32, b: u32)
    requires
        a <= b,
    ensures
        backoff_millis(a) <= backoff_millis(b),
        250 <= backoff_millis(a) <= 5000,
{
}

} // verus!
