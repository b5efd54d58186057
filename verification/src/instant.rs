//! Points on the time line, at nanosecond resolution.

use vstd::prelude::*;

verus! {

/// Nanoseconds in one second.
pub const NANOS_PER_SEC: u32 = 1_000_000_000;

/// The earliest instant that an [`Instant`] can hold, in nanoseconds since the epoch.
pub open spec fn earliest() -> int {
    i64::MIN * 1_000_000_000
}

/// The latest instant that an [`Instant`] can hold, in nanoseconds since the epoch.
pub open spec fn latest() -> int {
    i64::MAX * 1_000_000_000 + 999_999_999
}

/// Whether a count of nanoseconds since the epoch can be held by an [`Instant`].
pub open spec fn representable(nanos: int) -> bool {
    earliest() <= nanos <= latest()
}

/// An instant: whole seconds since the Unix epoch and the nanoseconds into that second.
///
/// Its view is the number of nanoseconds since the epoch. Two instants are equal
/// exactly when their views are.
#[derive(Clone, Copy, Debug, PartialEq, Eq)]
pub struct Instant {
    secs: i64,
    nanos: u32,
}

impl View for Instant {
    type V = int;

    closed spec fn view(&self) -> int {
        self.secs * 1_000_000_000 + self.nanos
    }
}

impl Instant {
    /// Whether the nanoseconds stay below one second, as they do in every instant
    /// that a program holds.
    #[verifier::type_invariant]
    pub closed spec fn well_formed(self) -> bool {
        self.nanos < NANOS_PER_SEC
    }

    /// The instant `secs` seconds and `subsec` nanoseconds after the epoch.
    ///
    /// `subsec` may be a second or more: what exceeds a second is carried into the
    /// seconds. `None` when the sum lies beyond the latest instant.
    pub fn from_parts(secs: i64, subsec: u32) -> (r: Option<Instant>)
        ensures
            r is Some <==> representable(secs * 1_000_000_000 + subsec),
            r matches Some(t) ==> t@ == secs * 1_000_000_000 + subsec,
    {
        let carry: u32 = subsec / NANOS_PER_SEC;
        let nanos: u32 = subsec % NANOS_PER_SEC;
        assert(subsec == carry * 1_000_000_000 + nanos);
        match secs.checked_add(carry as i64) {
            Some(whole) => Some(Instant { secs: whole, nanos }),
            None => None,
        }
    }

    /// The latest instant that can be held.
    pub fn last() -> (r: Instant)
        ensures
            r@ == latest(),
    {
        Instant { secs: i64::MAX, nanos: 999_999_999 }
    }

    /// Whole seconds since the epoch, rounded towards the past.
    pub fn secs(&self) -> (r: i64)
        ensures
            r == self@ / 1_000_000_000,
    {
        proof {
            use_type_invariant(self);
        }
        self.secs
    }

    /// Nanoseconds since the last whole second.
    pub fn subsec_nanos(&self) -> (r: u32)
        ensures
            r == self@ % 1_000_000_000,
    {
        proof {
            use_type_invariant(self);
        }
        self.nanos
    }

    /// Whether this instant lies strictly before `other`.
    pub fn is_before(&self, other: &Instant) -> (r: bool)
        ensures
            r == (self@ < other@),
    {
        proof {
            use_type_invariant(self);
            use_type_invariant(other);
        }
        self.secs < other.secs || (self.secs == other.secs && self.nanos < other.nanos)
    }

    /// Whether this instant lies before `other` or is the same instant.
    pub fn is_at_or_before(&self, other: &Instant) -> (r: bool)
        ensures
            r == (self@ <= other@),
    {
        !other.is_before(self)
    }

    /// The later of two instants.
    pub fn later_of(self, other: Instant) -> (r: Instant)
        ensures
            r@ == if self@ < other@ { other@ } else { self@ },
            r == self || r == other,
    {
        if self.is_before(&other) {
            other
        } else {
            self
        }
    }

    /// This instant moved by `seconds`, which may be negative.
    ///
    /// `None` when the result lies outside what an instant can hold.
    pub fn add_seconds(&self, seconds: i64) -> (r: Option<Instant>)
        ensures
            r is Some <==> representable(self@ + seconds * 1_000_000_000),
            r matches Some(t) ==> t@ == self@ + seconds * 1_000_000_000,
    {
        proof {
            use_type_invariant(self);
        }
        match self.secs.checked_add(seconds) {
            Some(whole) => Some(Instant { secs: whole, nanos: self.nanos }),
            None => None,
        }
    }
}

/// Every instant lies within the representable range, and an instant is
/// determined by its view.
pub proof fn lemma_instant_view(a: Instant, b: Instant)
    requires
        a.well_formed(),
        b.well_formed(),
    ensures
        representable(a@),
        a@ == b@ <==> a == b,
{
}

} // verus!
