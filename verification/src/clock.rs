//! The scheduler's clock.

use vstd::prelude::*;

verus! {

/// Relies on `chrono::Utc::now` / `DateTime::timestamp`: the current time
/// as whole seconds since the Unix epoch. The value depends on the wall
/// clock, so nothing is assumed of it; callers record it as handed back.
/// chrono itself panics on a system clock outside its representable
/// range; that is a property of the environment, not of any input.
#[verifier::external_body]
pub(crate) fn now_timestamp() -> i64 {
    chrono::Utc::now().timestamp()
}

} // verus!
