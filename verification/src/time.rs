//! Time spans and timestamps.

use vstd::prelude::*;
use core::cmp::Ordering;
use vstd::std_specs::cmp::{PartialOrdSpec, PartialOrdSpecImpl};

verus! {

/// The number of nanoseconds in a second.
pub const NANOS_PER_SEC: u32 = 1_000_000_000;

/// The number of nanoseconds in a millisecond.
pub const NANOS_PER_MILLI: u32 = 1_000_000;

/// A span of time: whole seconds and the nanoseconds beyond them.
#[derive(Clone, Copy, Debug, PartialEq, Eq, Structural)]
pub struct Duration {
    /// The whole seconds.
    pub secs: u64,
    /// The nanoseconds beyond the whole seconds, less than a second.
    pub nanos: u32,
}

impl Duration {
    /// The nanoseconds are less than a second.
    pub open spec fn valid(self) -> bool {
        self.nanos < NANOS_PER_SEC
    }

    /// The length of the span in nanoseconds.
    pub open spec fn total_nanos(self) -> int {
        self.secs * NANOS_PER_SEC + self.nanos
    }

    /// Creates a span from whole seconds and nanoseconds; nanoseconds beyond
    /// a second carry over into the seconds.
    pub fn new(secs: u64, nanos: u32) -> (r: Duration)
        requires
            secs + nanos / NANOS_PER_SEC <= u64::MAX,
        ensures
            r.valid(),
            r.total_nanos() == secs * NANOS_PER_SEC + nanos,
    {
        let carry: u64 = (nanos / NANOS_PER_SEC) as u64;
        Duration { secs: secs + carry, nanos: nanos % NANOS_PER_SEC }
    }

    /// Creates a span of whole seconds.
    pub fn from_secs(secs: u64) -> (r: Duration)
        ensures
            r.valid(),
            r.secs == secs,
            r.nanos == 0,
    {
        Duration { secs, nanos: 0 }
    }

    /// Creates a span of milliseconds.
    pub fn from_millis(millis: u64) -> (r: Duration)
        ensures
            r.valid(),
            r.total_nanos() == millis * NANOS_PER_MILLI,
    {
        let secs = millis / 1000;
        let rest: u32 = (millis % 1000) as u32;
        Duration { secs, nanos: rest * NANOS_PER_MILLI }
    }

    /// Returns the whole seconds of the span.
    pub fn as_secs(&self) -> (r: u64)
        ensures
            r == self.secs,
    {
        self.secs
    }

    /// Returns the nanoseconds beyond the whole seconds.
    pub fn subsec_nanos(&self) -> (r: u32)
        ensures
            r == self.nanos,
    {
        self.nanos
    }

    /// Returns the microseconds beyond the whole seconds.
    pub fn subsec_micros(&self) -> (r: u32)
        ensures
            r == self.nanos / 1000,
    {
        self.nanos / 1000
    }

    /// Adds two spans; `None` if the sum has more seconds than fit.
    pub fn checked_add(self, rhs: Duration) -> (r: Option<Duration>)
        requires
            self.valid(),
            rhs.valid(),
        ensures
            r is None <==> self.total_nanos() + rhs.total_nanos() >= (u64::MAX + 1) * NANOS_PER_SEC,
            r matches Some(d) ==> d.valid() && d.total_nanos() == self.total_nanos() + rhs.total_nanos(),
    {
        let nanos: u32 = self.nanos + rhs.nanos;
        match self.secs.checked_add(rhs.secs) {
            None => None,
            Some(secs) => {
                if nanos >= NANOS_PER_SEC {
                    match secs.checked_add(1) {
                        None => None,
                        Some(secs) => Some(Duration { secs, nanos: nanos - NANOS_PER_SEC }),
                    }
                } else {
                    Some(Duration { secs, nanos })
                }
            },
        }
    }

    /// Subtracts a span; `None` if it is longer than this one.
    pub fn checked_sub(self, rhs: Duration) -> (r: Option<Duration>)
        requires
            self.valid(),
            rhs.valid(),
        ensures
            r is None <==> self.total_nanos() < rhs.total_nanos(),
            r matches Some(d) ==> d.valid() && d.total_nanos() == self.total_nanos() - rhs.total_nanos(),
    {
        if self.secs < rhs.secs {
            None
        } else if self.nanos >= rhs.nanos {
            Some(Duration { secs: self.secs - rhs.secs, nanos: self.nanos - rhs.nanos })
        } else if self.secs > rhs.secs {
            Some(Duration { secs: self.secs - rhs.secs - 1, nanos: self.nanos + NANOS_PER_SEC - rhs.nanos })
        } else {
            None
        }
    }
}

/// Represents a timestamp within the kernel: the time since boot.
#[derive(Clone, Copy, Debug, PartialEq, Eq, Structural)]
pub struct Timestamp(pub Duration);

impl Timestamp {
    /// The time since boot in nanoseconds.
    pub open spec fn nanos(self) -> int {
        self.0.total_nanos()
    }

    /// The underlying span is valid.
    pub open spec fn valid(self) -> bool {
        self.0.valid()
    }

    /// Returns the timestamp `duration` after boot.
    pub fn from_duration(duration: Duration) -> (r: Timestamp)
        ensures
            r.0 == duration,
    {
        Timestamp(duration)
    }

    /// Offsets the timestamp by the given span; `None` if the result does
    /// not fit.
    pub fn offset(self, duration: Duration) -> (r: Option<Timestamp>)
        requires
            self.valid(),
            duration.valid(),
        ensures
            r is None <==> self.nanos() + duration.total_nanos() >= (u64::MAX + 1) * NANOS_PER_SEC,
            r matches Some(t) ==> t.valid() && t.nanos() == self.nanos() + duration.total_nanos(),
    {
        match self.0.checked_add(duration) {
            Some(new_duration) => Some(Timestamp(new_duration)),
            None => None,
        }
    }

    /// The span from `other` to this timestamp; `None` if `other` is later.
    pub fn checked_sub(self, other: Timestamp) -> (r: Option<Duration>)
        requires
            self.valid(),
            other.valid(),
        ensures
            r is None <==> self.nanos() < other.nanos(),
            r matches Some(d) ==> d.valid() && d.total_nanos() == self.nanos() - other.nanos(),
    {
        self.0.checked_sub(other.0)
    }

    /// The span from `rhs` to this timestamp, which must not be earlier.
    pub fn sub(self, rhs: Timestamp) -> (r: Duration)
        requires
            self.valid(),
            rhs.valid(),
            rhs.nanos() <= self.nanos(),
        ensures
            r.valid(),
            r.total_nanos() == self.nanos() - rhs.nanos(),
    {
        self.0.checked_sub(rhs.0).unwrap()
    }

    /// Returns true if this timestamp is not later than the other one.
    pub fn is_not_after(&self, other: &Timestamp) -> (r: bool)
        requires
            self.valid(),
            other.valid(),
        ensures
            r == (self.nanos() <= other.nanos()),
    {
        self.0.secs < other.0.secs || (self.0.secs == other.0.secs && self.0.nanos <= other.0.nanos)
    }
}

/// Taking the span from a timestamp to the timestamp offset by a duration
/// gives back the duration.
pub proof fn lemma_offset_then_sub(now: Timestamp, duration: Duration, later: Timestamp)
    requires
        now.valid(),
        duration.valid(),
        later.valid(),
        later.nanos() == now.nanos() + duration.total_nanos(),
    ensures
        !(later.nanos() < now.nanos()),
        later.nanos() - now.nanos() == duration.total_nanos(),
{
}

/// Two valid spans with the same length in nanoseconds are the same span.
pub proof fn lemma_duration_unique(a: Duration, b: Duration)
    requires
        a.valid(),
        b.valid(),
        a.total_nanos() == b.total_nanos(),
    ensures
        a == b,
{
    assert(a.secs == b.secs) by (nonlinear_arith)
        requires
            a.nanos < 1_000_000_000,
            b.nanos < 1_000_000_000,
            a.secs * 1_000_000_000 + a.nanos == b.secs * 1_000_000_000 + b.nanos,
    ;
}

/// Timestamps made from spans are ordered as the spans are: by the length
/// in nanoseconds, which is the order of the seconds and then of the
/// nanoseconds beyond them; and the span between two of them is the
/// difference of the spans.
pub proof fn lemma_from_duration_keeps_order(a: Duration, b: Duration)
    requires
        a.valid(),
        b.valid(),
    ensures
        (Timestamp(a).nanos() < Timestamp(b).nanos()) == (a.total_nanos() < b.total_nanos()),
        (Timestamp(a).nanos() == Timestamp(b).nanos()) == (a == b),
        (a.total_nanos() < b.total_nanos()) == (a.secs < b.secs || (a.secs == b.secs && a.nanos < b.nanos)),
        b.total_nanos() <= a.total_nanos() ==> Timestamp(a).nanos() - Timestamp(b).nanos() == a.total_nanos()
            - b.total_nanos(),
{
    if a.total_nanos() == b.total_nanos() {
        lemma_duration_unique(a, b);
    }
    assert((a.total_nanos() < b.total_nanos()) == (a.secs < b.secs || (a.secs == b.secs && a.nanos < b.nanos)))
        by (nonlinear_arith)
        requires
            a.nanos < 1_000_000_000,
            b.nanos < 1_000_000_000,
            a.total_nanos() == a.secs * 1_000_000_000 + a.nanos,
            b.total_nanos() == b.secs * 1_000_000_000 + b.nanos,
    ;
}

/// The order of timestamps: by the whole seconds, then by the nanoseconds
/// beyond them.
impl PartialOrd for Timestamp {
    fn partial_cmp(&self, other: &Timestamp) -> (r: Option<Ordering>) {
        if self.0.secs < other.0.secs {
            Some(Ordering::Less)
        } else if self.0.secs > other.0.secs {
            Some(Ordering::Greater)
        } else if self.0.nanos < other.0.nanos {
            Some(Ordering::Less)
        } else if self.0.nanos > other.0.nanos {
            Some(Ordering::Greater)
        } else {
            Some(Ordering::Equal)
        }
    }
}

impl PartialOrdSpecImpl for Timestamp {
    open spec fn obeys_partial_cmp_spec() -> bool {
        true
    }

    open spec fn partial_cmp_spec(&self, other: &Timestamp) -> Option<Ordering> {
        if self.0.secs < other.0.secs {
            Some(Ordering::Less)
        } else if self.0.secs > other.0.secs {
            Some(Ordering::Greater)
        } else if self.0.nanos < other.0.nanos {
            Some(Ordering::Less)
        } else if self.0.nanos > other.0.nanos {
            Some(Ordering::Greater)
        } else {
            Some(Ordering::Equal)
        }
    }
}

/// Timestamps made from two spans compare as the spans' lengths do.
pub proof fn lemma_timestamp_order(a: Duration, b: Duration)
    requires
        a.valid(),
        b.valid(),
    ensures
        PartialOrdSpec::partial_cmp_spec(&Timestamp(a), &Timestamp(b)) == Some(
            if a.total_nanos() < b.total_nanos() {
                Ordering::Less
            } else if a.total_nanos() == b.total_nanos() {
                Ordering::Equal
            } else {
                Ordering::Greater
            },
        ),
{
    lemma_from_duration_keeps_order(a, b);
    lemma_from_duration_keeps_order(b, a);
}

} // verus!
