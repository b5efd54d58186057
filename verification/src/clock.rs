//! The wall clock.

use crate::instant::lemma_instant_view;
use crate::instant::representable;
use crate::instant::Instant;
use vstd::prelude::*;

verus! {

/// Reads the system clock with `std::time::SystemTime::now`, as chrono's
/// `DateTime<Utc>` counts it: seconds since the epoch and nanoseconds into the
/// second.
///
/// Trusted, with nothing claimed: two readings need not agree.
#[verifier::external_body]
fn system_time() -> (i64, u32) {
    let t = chrono::DateTime::<chrono::Utc>::from(std::time::SystemTime::now());
    (t.timestamp(), t.timestamp_subsec_nanos())
}

/// The present instant. A clock beyond the latest instant reads as the latest.
pub fn now() -> (r: Instant)
    ensures
        representable(r@),
{
    let (secs, subsec) = system_time();
    let read = match Instant::from_parts(secs, subsec) {
        Some(t) => t,
        None => Instant::last(),
    };
    proof {
        use_type_invariant(&read);
        lemma_instant_view(read, read);
    }
    read
}

} // verus!
