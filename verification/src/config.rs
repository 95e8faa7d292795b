//! Limits that the server enforces. Instants and spans of time are counted in
//! nanoseconds.

use vstd::prelude::*;
use vstd::string::StringExecFns;

verus! {

/// TCP port that the server listens on.
pub const PORT: u16 = 6969;

/// When set, addresses and error details are replaced in log output.
pub const SAFE_MODE: bool = false;

/// How long a banned address stays blocked: ten minutes.
pub const BAN_LIMIT: u64 = 600_000_000_000;

/// The least gap between two messages of one client: one second.
pub const MESSAGE_RATE: u64 = 1_000_000_000;

/// How long a connection may stay without authenticating: 200 milliseconds.
pub const SLOWLORIS_LIMIT: u64 = 200_000_000;

/// Strikes that an address may collect before the next one bans it.
pub const STRIKE_LIMIT: usize = 10;

/// The longest pause between two ticks of the clock: 16 milliseconds, well
/// under a quarter of the slow-connect limit.
pub const TICK_INTERVAL: u64 = 16_000_000;

/// What stands in log output in the place of a redacted value.
pub open spec fn spec_redaction_marker() -> Seq<char> {
    "[REDACTED]"@
}

/// `value` as it may be logged: itself, or the redaction marker in safe
/// mode.
pub fn redact(value: &str) -> (shown: String)
    ensures
        shown@ == if SAFE_MODE {
            spec_redaction_marker()
        } else {
            value@
        },
{
    if SAFE_MODE {
        String::from_str("[REDACTED]")
    } else {
        String::from_str(value)
    }
}

/// The time from `earlier` to `now`, or zero where the clock went backwards.
pub open spec fn spec_elapsed(now: int, earlier: int) -> int {
    if now >= earlier {
        now - earlier
    } else {
        0
    }
}

} // verus!
