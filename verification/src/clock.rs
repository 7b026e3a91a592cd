//! Moments in time, in nanoseconds.

use vstd::prelude::*;

verus! {

/// A moment: nanoseconds on a clock that never runs backwards. The clock's
/// origin means nothing, only differences do.
#[derive(Clone, Copy, PartialEq, Eq, PartialOrd, Ord, Structural, Debug)]
pub struct Instant {
    pub nanos: u64,
}

impl Instant {
    /// Nanoseconds since `earlier`: zero where `earlier` has yet to come.
    pub open spec fn since(self, earlier: Instant) -> nat {
        if self.nanos >= earlier.nanos {
            (self.nanos - earlier.nanos) as nat
        } else {
            0
        }
    }

    /// The moment `d` nanoseconds later, or the clock's last moment where
    /// `d` reaches beyond it.
    pub open spec fn later(self, d: u64) -> Instant {
        if self.nanos + d <= u64::MAX {
            Instant { nanos: (self.nanos + d) as u64 }
        } else {
            Instant { nanos: u64::MAX }
        }
    }

    pub fn nanos_since(self, earlier: Instant) -> (d: u64)
        ensures
            d == self.since(earlier),
    {
        if self.nanos >= earlier.nanos {
            self.nanos - earlier.nanos
        } else {
            0
        }
    }

    pub fn after(self, d: u64) -> (t: Instant)
        ensures
            t == self.later(d),
    {
        if d <= u64::MAX - self.nanos {
            Instant { nanos: self.nanos + d }
        } else {
            Instant { nanos: u64::MAX }
        }
    }
}

/// The earlier of two wakeups, where none is asked for later than any.
pub open spec fn earliest(a: Option<Instant>, b: Option<Instant>) -> Option<Instant> {
    match (a, b) {
        (Some(x), Some(y)) => if x.nanos <= y.nanos {
            Some(x)
        } else {
            Some(y)
        },
        (Some(x), None) => Some(x),
        (None, y) => y,
    }
}

/// A deadline that has yet to come.
pub open spec fn pending(d: Instant, now: Instant) -> Option<Instant> {
    if now.nanos < d.nanos {
        Some(d)
    } else {
        None
    }
}

/// `wake`, or the deadline `d` where it has yet to come and comes first.
pub fn wake_by(wake: Option<Instant>, d: Instant, now: Instant) -> (r: Option<Instant>)
    ensures
        r == earliest(wake, pending(d, now)),
{
    if now.nanos < d.nanos {
        match wake {
            Some(w) => if w.nanos <= d.nanos {
                Some(w)
            } else {
                Some(d)
            },
            None => Some(d),
        }
    } else {
        wake
    }
}

} // verus!
