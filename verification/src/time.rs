//! Times are nanoseconds since an epoch of the caller's choice, spans are
//! nanoseconds.

use vstd::prelude::*;

verus! {

/// One second.
pub const SECOND: u128 = 1_000_000_000;

/// How long before `now` something happened at `at`; nothing, where it lies
/// ahead.
pub open spec fn passed(now: u128, at: u128) -> int {
    if at <= now {
        now - at
    } else {
        0
    }
}

/// How long before `now` something happened at `at`; nothing, where it lies
/// ahead.
pub fn since(now: u128, at: u128) -> (r: u128)
    ensures
        r == passed(now, at),
{
    if at <= now {
        now - at
    } else {
        0
    }
}

} // verus!
