//! Time: wall-clock timestamps, and the time that has gone by since an instant.
use std::time::Instant;
use vstd::prelude::*;

verus! {

/// A point in time in UTC: whole seconds since the Unix epoch, and the nanoseconds after that
/// second. A leap second runs the nanoseconds on past one second.
#[derive(Clone, Copy, Debug, PartialEq, Eq, Structural)]
pub struct Timestamp {
    pub secs: i64,
    pub nanos: u32,
}

impl Timestamp {
    /// Earlier than `other`, or the same.
    pub open spec fn at_or_before(self, other: Timestamp) -> bool {
        self.secs < other.secs || (self.secs == other.secs && self.nanos <= other.nanos)
    }
}

/// The order of what may never have happened: never comes before any time.
pub open spec fn no_later(a: Option<Timestamp>, b: Option<Timestamp>) -> bool {
    match (a, b) {
        (None, _) => true,
        (Some(_), None) => false,
        (Some(x), Some(y)) => x.at_or_before(y),
    }
}

/// Whether `a` is no later than `b`, with never before any time.
pub fn is_no_later(a: Option<Timestamp>, b: Option<Timestamp>) -> (r: bool)
    ensures
        r == no_later(a, b),
        a is None ==> r,
        a is Some && b is None ==> !r,
        a matches Some(x) ==> b matches Some(y) ==> x.nanos < 1_000_000_000 ==> y.nanos
            < 1_000_000_000 ==> (r <==> x.secs * 1_000_000_000 + x.nanos <= y.secs * 1_000_000_000
            + y.nanos),
{
    match (a, b) {
        (None, _) => true,
        (Some(_), None) => false,
        (Some(x), Some(y)) => x.secs < y.secs || (x.secs == y.secs && x.nanos <= y.nanos),
    }
}

/// `chrono::Utc::now`: the current time. Nothing is claimed of which time that is, only that it is
/// no earlier than the Unix epoch and that the nanoseconds are less than one second.
///
/// The call panics if the system clock stands before the Unix epoch, or beyond the years that
/// `chrono` can hold.
#[verifier::external_body]
pub(crate) fn utc_now() -> (r: Timestamp)
    ensures
        0 <= r.secs,
        r.nanos < 1_000_000_000,
{
    let now = chrono::Utc::now();
    Timestamp { secs: now.timestamp(), nanos: now.timestamp_subsec_nanos() }
}

/// The time was read from the system clock, by a call of [`utc_now`] that returned it.
pub closed spec fn is_time_read(now: Timestamp) -> bool {
    call_ensures(utc_now, (), now)
}

/// A time that was read from the system clock is one that a call of [`utc_now`] returned, and no
/// other is.
pub(crate) proof fn law_time_is_read_from_the_clock(now: Timestamp)
    ensures
        is_time_read(now) <==> call_ensures(utc_now, (), now),
        is_time_read(now) ==> 0 <= now.secs && now.nanos < 1_000_000_000,
{
}

/// Reads the current time from the system clock.
pub(crate) fn read_time() -> (r: Timestamp)
    ensures
        is_time_read(r),
        0 <= r.secs,
        r.nanos < 1_000_000_000,
{
    utc_now()
}

/// `std::time::Instant`: a reading of the monotonic clock, of which nothing is known but that it
/// was taken.
#[verifier::external_type_specification]
#[verifier::external_body]
pub struct ExInstant(Instant);

/// `std::time::Instant::now`: a reading of the monotonic clock. Nothing is claimed of it.
pub assume_specification[ Instant::now ]() -> (r: Instant)
;

/// The instant was read from the monotonic clock, by a call of `Instant::now` that returned it. Of
/// an instant that comes from elsewhere this is not known.
pub open spec fn is_instant_read(now: Instant) -> bool {
    call_ensures(Instant::now, (), now)
}

/// A length of time in whole seconds and the nanoseconds that remain.
#[derive(Clone, Copy, Debug, PartialEq, Eq, Structural)]
pub struct Elapsed {
    pub secs: u64,
    pub nanos: u32,
}

impl Elapsed {
    /// The whole milliseconds in this length of time.
    pub open spec fn millis(self) -> nat {
        (self.secs * 1000 + self.nanos / 1_000_000) as nat
    }

    pub fn as_millis(&self) -> (r: u128)
        ensures
            r == self.millis(),
    {
        self.secs as u128 * 1000 + (self.nanos / 1_000_000) as u128
    }
}

/// There is a moment at which so many seconds and nanoseconds have gone by since the instant.
pub uninterp spec fn may_elapse_since(instant: Instant, secs: u64, nanos: u32) -> bool;

/// `std::time::Instant::elapsed`: the time that has gone by since the instant. How long that is
/// rests on when the call is made, and only that it is counted from the instant is claimed, and
/// that the nanoseconds are less than one second.
#[verifier::external_body]
pub(crate) fn elapsed_since(instant: Instant) -> (r: Elapsed)
    ensures
        r.nanos < 1_000_000_000,
        may_elapse_since(instant, r.secs, r.nanos),
{
    let elapsed = instant.elapsed();
    Elapsed { secs: elapsed.as_secs(), nanos: elapsed.subsec_nanos() }
}

} // verus!
