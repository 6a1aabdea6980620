use std::time::Duration;
use vstd::prelude::*;

verus! {

/// What `Duration::from_secs` gives for `secs` seconds.
pub uninterp spec fn seconds(secs: u64) -> Duration;

/// Calls `Duration::from_secs`; the contract names its result `seconds(secs)`.
#[verifier::external_body]
pub(crate) fn duration_from_secs(secs: u64) -> (duration: Duration)
    ensures
        duration == seconds(secs),
{
    Duration::from_secs(secs)
}

/// The duration of a whole number of seconds given in a request; a
/// negative number counts as none.
pub fn whole_seconds(count: i64) -> (duration: Duration)
    ensures
        duration == seconds(if count < 0 {
            0
        } else {
            count as u64
        }),
{
    let count = if count < 0 {
        0
    } else {
        count as u64
    };
    duration_from_secs(count)
}

} // verus!
