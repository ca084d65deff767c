//! The derived locked/unlocked status of a snapshot.

use vstd::prelude::*;

verus! {

/// The status a snapshot reports: `Locked` when no key material is usable
/// (never loaded, or idle past the clear interval), otherwise `Unlocked` with
/// the time left until the idle clock runs out. A clear interval of zero
/// means the password never expires and the remaining time reads zero.
#[derive(Clone, Copy, Debug, PartialEq, Eq)]
pub enum Status {
    Locked,
    Unlocked { remaining_ms: u64 },
}

/// What the status of a snapshot is, as a function of the configured clear
/// interval, its last-access timestamp (if any) and the current time, all in
/// milliseconds. A snapshot never accessed is `Locked`; one whose idle time
/// has reached a positive interval is `Locked`; otherwise it is `Unlocked`
/// with `interval - elapsed` remaining (zero when the interval is zero).
pub open spec fn spec_status(interval_ms: u64, last_access: Option<u64>, now_ms: u64) -> Status {
    match last_access {
        None => Status::Locked,
        Some(t) => {
            let elapsed: int = if now_ms >= t {
                now_ms - t
            } else {
                0
            };
            if interval_ms > 0 && elapsed >= interval_ms {
                Status::Locked
            } else if interval_ms == 0 {
                Status::Unlocked { remaining_ms: 0 }
            } else {
                Status::Unlocked { remaining_ms: (interval_ms - elapsed) as u64 }
            }
        },
    }
}

/// Computes [`spec_status`] on concrete values.
pub fn compute_status(interval_ms: u64, last_access: Option<u64>, now_ms: u64) -> (s: Status)
    ensures
        s == spec_status(interval_ms, last_access, now_ms),
{
    match last_access {
        None => Status::Locked,
        Some(t) => {
            let elapsed: u64 = if now_ms >= t {
                now_ms - t
            } else {
                0
            };
            if interval_ms > 0 && elapsed >= interval_ms {
                Status::Locked
            } else if interval_ms == 0 {
                Status::Unlocked { remaining_ms: 0 }
            } else {
                Status::Unlocked { remaining_ms: interval_ms - elapsed }
            }
        },
    }
}

/// A status transition the core has triggered for a snapshot, queued for the
/// caller to deliver to its listeners.
#[derive(Clone, Debug)]
pub struct StatusEvent {
    pub path: String,
    pub status: Status,
}

} // verus!
