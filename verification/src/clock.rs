//! Time as the library sees it: nanoseconds on a monotonic clock whose origin
//! the caller picks.

use vstd::prelude::*;

verus! {

/// Nanoseconds in a millisecond.
pub const MILLISECOND: u64 = 1_000_000;

/// Whether `now` lies more than `span` after `since`.
pub open spec fn spec_is_after(now: u64, since: u64, span: u64) -> bool {
    now > since + span
}

/// Whether `now` lies at least `span` after `since`.
pub open spec fn spec_has_reached(now: u64, since: u64, span: u64) -> bool {
    now >= since + span
}

/// Whether `now` lies more than `span` after `since`.
#[verifier::when_used_as_spec(spec_is_after)]
pub fn is_after(now: u64, since: u64, span: u64) -> (after: bool)
    ensures
        after == spec_is_after(now, since, span),
{
    now > since && now - since > span
}

/// Whether `now` lies at least `span` after `since`.
#[verifier::when_used_as_spec(spec_has_reached)]
pub fn has_reached(now: u64, since: u64, span: u64) -> (reached: bool)
    ensures
        reached == spec_has_reached(now, since, span),
{
    now >= since && now - since >= span
}

} // verus!
