//! Durations and timestamps.
//!
//! Both are exact counts of nanoseconds, held as whole seconds and the
//! nanoseconds past them. The arithmetic is chrono's; this module carries plain
//! numbers to it and back, and states what comes back. A timestamp is a point in
//! time together with the offset from UTC that it is written with. The scale has no
//! leap seconds, but a timestamp may lie in one: it is then held as nanoseconds past
//! the end of the second before.

use crate::double::{int_order, order_i64, Order};
use vstd::prelude::*;

verus! {

/// Nanoseconds in a second.
pub const NANOS_PER_SEC: u32 = 1_000_000_000;

/// The earliest second a timestamp can name: the start of year -262143.
pub const MIN_INSTANT_SECS: i64 = -8_334_601_228_800;

/// The latest second a timestamp can name: the end of year 262142.
pub const MAX_INSTANT_SECS: i64 = 8_210_266_876_799;

/// `0001-01-01T00:00:00Z`, the earliest timestamp arithmetic may produce.
pub const MIN_TIMESTAMP_SECS: i64 = -62_135_596_800;

/// The second of `9999-12-31T23:59:59Z`, the latest that arithmetic may produce.
pub const MAX_TIMESTAMP_SECS: i64 = 253_402_300_799;

/// Seconds and nanoseconds as one count of nanoseconds.
pub open spec fn total_nanos(secs: int, nanos: int) -> int {
    secs * 1_000_000_000 + nanos
}

/// A duration is at most `i64::MAX` milliseconds long, in either direction.
pub open spec fn in_duration_range(total: int) -> bool {
    -(i64::MAX * 1_000_000) <= total <= i64::MAX * 1_000_000
}

/// What a timestamp is: an instant, in nanoseconds since the Unix epoch, and the
/// seconds by which local time runs ahead of UTC. An instant in a leap second has the
/// count of the instant a second after the same one of the second before.
pub struct Instant {
    pub nanos: int,
    pub leap: bool,
    pub offset: int,
}

impl Instant {
    /// The second that the instant lies in. A leap second is part of the one before.
    pub open spec fn secs(self) -> int {
        if self.leap {
            self.nanos / 1_000_000_000 - 1
        } else {
            self.nanos / 1_000_000_000
        }
    }

    /// The nanoseconds since its second began: a second or more in a leap second.
    pub open spec fn frac(self) -> int {
        self.nanos - self.secs() * 1_000_000_000
    }

    /// A number that orders instants: by their second, and in it by the nanoseconds
    /// since it began.
    pub open spec fn rank(self) -> int {
        self.secs() * 2_000_000_000 + self.frac()
    }

    /// The instant `d` nanoseconds later. Leaving a leap second forwards, that second
    /// does not count.
    pub open spec fn moved(self, d: int) -> Instant {
        if self.leap && self.frac() + d >= 2_000_000_000 {
            Instant { nanos: self.nanos + d - 1_000_000_000, leap: false, offset: self.offset }
        } else {
            Instant {
                nanos: self.nanos + d,
                leap: self.leap && d > -1_000_000_000 && self.frac() + d >= 1_000_000_000,
                offset: self.offset,
            }
        }
    }

    /// The nanoseconds from another instant to this one. A leap second counts where it
    /// lies at the earlier time of day.
    pub open spec fn since(self, other: Instant) -> int {
        let day: int = 86_400;
        let extra: int = if other.leap && self.secs() % day > other.secs() % day {
            1_000_000_000
        } else if self.leap && self.secs() % day < other.secs() % day {
            -1_000_000_000
        } else {
            0
        };
        self.nanos - other.nanos + extra
    }

    /// The same count of nanoseconds, outside any leap second.
    pub open spec fn smoothed(self) -> Instant {
        Instant { leap: false, ..self }
    }
}

/// The instant `nanos` nanoseconds after the start of a second.
pub open spec fn instant_at(secs: int, nanos: int, offset: int) -> Instant {
    Instant { nanos: total_nanos(secs, nanos), leap: nanos >= 1_000_000_000, offset }
}

/// A timestamp lies within the years that the calendar covers.
pub open spec fn in_instant_range(t: Instant) -> bool {
    MIN_INSTANT_SECS <= t.secs() <= MAX_INSTANT_SECS
}

/// The results that timestamp arithmetic may give:
/// `0001-01-01T00:00:00Z` to `9999-12-31T23:59:59.999999999Z`.
pub open spec fn in_timestamp_limits(t: Instant) -> bool {
    MIN_TIMESTAMP_SECS <= t.secs() && t.nanos <= total_nanos(
        MAX_TIMESTAMP_SECS as int,
        999_999_999,
    )
}

/// Whether a pair is the normal form of a duration.
pub open spec fn is_duration(secs: i64, nanos: u32) -> bool {
    nanos < NANOS_PER_SEC && in_duration_range(total_nanos(secs as int, nanos as int))
}

/// Whether a pair is the normal form of an instant. Only the last second of a minute
/// can have a leap second after it.
pub open spec fn is_instant(secs: i64, nanos: u32) -> bool {
    &&& MIN_INSTANT_SECS <= secs <= MAX_INSTANT_SECS
    &&& nanos < NANOS_PER_SEC || (nanos < 2_000_000_000 && secs as int % 60 == 59)
}

/// `chrono::TimeDelta::checked_add`: the sum of two durations, and `None` exactly
/// when it is too long to be one. The nanoseconds carry the sign of the sum.
#[verifier::external_body]
fn delta_checked_add(ls: i64, ln: u32, rs: i64, rn: u32) -> (r: Option<(i64, i32)>)
    requires
        is_duration(ls, ln),
        is_duration(rs, rn),
    ensures
        match r {
            Some((s, n)) => {
                &&& -1_000_000_000 < n < 1_000_000_000
                &&& total_nanos(s as int, n as int) == total_nanos(ls as int, ln as int)
                    + total_nanos(rs as int, rn as int)
                &&& in_duration_range(total_nanos(s as int, n as int))
            },
            None => !in_duration_range(
                total_nanos(ls as int, ln as int) + total_nanos(rs as int, rn as int),
            ),
        },
{
    let l = chrono::TimeDelta::new(ls, ln)?;
    let r = chrono::TimeDelta::new(rs, rn)?;
    let d = l.checked_add(&r)?;
    Some((d.num_seconds(), d.subsec_nanos()))
}

/// `chrono::TimeDelta::checked_sub`: the difference of two durations, and `None`
/// exactly when it is too long to be one. The nanoseconds carry its sign.
#[verifier::external_body]
fn delta_checked_sub(ls: i64, ln: u32, rs: i64, rn: u32) -> (r: Option<(i64, i32)>)
    requires
        is_duration(ls, ln),
        is_duration(rs, rn),
    ensures
        match r {
            Some((s, n)) => {
                &&& -1_000_000_000 < n < 1_000_000_000
                &&& total_nanos(s as int, n as int) == total_nanos(ls as int, ln as int)
                    - total_nanos(rs as int, rn as int)
                &&& in_duration_range(total_nanos(s as int, n as int))
            },
            None => !in_duration_range(
                total_nanos(ls as int, ln as int) - total_nanos(rs as int, rn as int),
            ),
        },
{
    let l = chrono::TimeDelta::new(ls, ln)?;
    let r = chrono::TimeDelta::new(rs, rn)?;
    let d = l.checked_sub(&r)?;
    Some((d.num_seconds(), d.subsec_nanos()))
}

/// `-d` on `chrono::TimeDelta`: the opposite duration, which always exists. The
/// `None` of the result would stand for an argument that is no duration.
#[verifier::external_body]
fn delta_negate(s: i64, n: u32) -> (r: Option<(i64, i32)>)
    requires
        is_duration(s, n),
    ensures
        match r {
            Some((rs, rn)) => {
                &&& -1_000_000_000 < rn < 1_000_000_000
                &&& total_nanos(rs as int, rn as int) == -total_nanos(s as int, n as int)
            },
            None => false,
        },
{
    let d = -chrono::TimeDelta::new(s, n)?;
    Some((d.num_seconds(), d.subsec_nanos()))
}

/// `chrono::TimeDelta::nanoseconds`: the duration of a count of nanoseconds.
#[verifier::external_body]
fn delta_of_nanoseconds(nanos: i64) -> (r: (i64, i32))
    ensures
        -1_000_000_000 < r.1 < 1_000_000_000,
        total_nanos(r.0 as int, r.1 as int) == nanos,
{
    let d = chrono::TimeDelta::nanoseconds(nanos);
    (d.num_seconds(), d.subsec_nanos())
}

/// `chrono::TimeDelta::num_nanoseconds`: the whole length in nanoseconds, and
/// `None` exactly when an `i64` cannot hold it.
#[verifier::external_body]
fn delta_num_nanoseconds(s: i64, n: u32) -> (r: Option<i64>)
    requires
        is_duration(s, n),
    ensures
        match r {
            Some(v) => v == total_nanos(s as int, n as int),
            None => !(i64::MIN <= total_nanos(s as int, n as int) <= i64::MAX),
        },
{
    chrono::TimeDelta::new(s, n)?.num_nanoseconds()
}

/// `chrono::DateTime::checked_add_signed`: the instant a duration later, and
/// `None` exactly when the calendar does not reach it. A duration that leads out of a
/// leap second forwards counts from the second before it.
#[verifier::external_body]
fn instant_checked_add(s: i64, n: u32, ds: i64, dn: u32) -> (r: Option<(i64, u32)>)
    requires
        is_instant(s, n),
        is_duration(ds, dn),
    ensures
        match r {
            Some((rs, rn)) => {
                &&& is_instant(rs, rn)
                &&& instant_at(rs as int, rn as int, 0) == instant_at(s as int, n as int, 0).moved(
                    total_nanos(ds as int, dn as int),
                )
            },
            None => !in_instant_range(
                instant_at(s as int, n as int, 0).moved(total_nanos(ds as int, dn as int)),
            ),
        },
{
    let t = chrono::DateTime::from_timestamp(s, n)?;
    let d = chrono::TimeDelta::new(ds, dn)?;
    let moved = t.checked_add_signed(d)?;
    Some((moved.timestamp(), moved.timestamp_subsec_nanos()))
}

/// `chrono::DateTime::checked_sub_signed`: the instant a duration earlier, and
/// `None` exactly when the calendar does not reach it. It is the instant that the
/// opposite duration is later.
#[verifier::external_body]
fn instant_checked_sub(s: i64, n: u32, ds: i64, dn: u32) -> (r: Option<(i64, u32)>)
    requires
        is_instant(s, n),
        is_duration(ds, dn),
    ensures
        match r {
            Some((rs, rn)) => {
                &&& is_instant(rs, rn)
                &&& instant_at(rs as int, rn as int, 0) == instant_at(s as int, n as int, 0).moved(
                    -total_nanos(ds as int, dn as int),
                )
            },
            None => !in_instant_range(
                instant_at(s as int, n as int, 0).moved(-total_nanos(ds as int, dn as int)),
            ),
        },
{
    let t = chrono::DateTime::from_timestamp(s, n)?;
    let d = chrono::TimeDelta::new(ds, dn)?;
    let moved = t.checked_sub_signed(d)?;
    Some((moved.timestamp(), moved.timestamp_subsec_nanos()))
}

/// `chrono::DateTime::signed_duration_since`: the duration from the second
/// instant to the first, in which a leap second counts where it lies at the earlier
/// time of day. The `None` of the result would stand for an argument that is no
/// instant.
#[verifier::external_body]
fn instant_since(ls: i64, ln: u32, rs: i64, rn: u32) -> (r: Option<(i64, i32)>)
    requires
        is_instant(ls, ln),
        is_instant(rs, rn),
    ensures
        match r {
            Some((s, n)) => {
                &&& -1_000_000_000 < n < 1_000_000_000
                &&& total_nanos(s as int, n as int) == instant_at(ls as int, ln as int, 0).since(
                    instant_at(rs as int, rn as int, 0),
                )
            },
            None => false,
        },
{
    let l = chrono::DateTime::from_timestamp(ls, ln)?;
    let r = chrono::DateTime::from_timestamp(rs, rn)?;
    let d = l.signed_duration_since(r);
    Some((d.num_seconds(), d.subsec_nanos()))
}

/// `chrono::DateTime::from_timestamp_nanos`: the instant a count of nanoseconds
/// after the Unix epoch.
#[verifier::external_body]
fn instant_of_nanoseconds(nanos: i64) -> (r: (i64, u32))
    ensures
        is_instant(r.0, r.1),
        r.1 < NANOS_PER_SEC,
        total_nanos(r.0 as int, r.1 as int) == nanos,
{
    let t = chrono::DateTime::from_timestamp_nanos(nanos);
    (t.timestamp(), t.timestamp_subsec_nanos())
}

/// `chrono::DateTime::timestamp_nanos_opt`: the nanoseconds since the Unix epoch,
/// and `None` exactly when an `i64` cannot hold them.
#[verifier::external_body]
fn instant_num_nanoseconds(s: i64, n: u32) -> (r: Option<i64>)
    requires
        is_instant(s, n),
    ensures
        match r {
            Some(v) => v == total_nanos(s as int, n as int),
            None => !(i64::MIN <= total_nanos(s as int, n as int) <= i64::MAX),
        },
{
    chrono::DateTime::from_timestamp(s, n)?.timestamp_nanos_opt()
}

/// A length of time, to the nanosecond.
#[derive(Clone, Copy, Debug, PartialEq, Eq, Structural)]
pub struct Duration {
    secs: i64,
    nanos: u32,
}

impl View for Duration {
    type V = int;

    closed spec fn view(&self) -> int {
        total_nanos(self.secs as int, self.nanos as int)
    }
}

impl Duration {
    #[verifier::type_invariant]
    spec fn inv(self) -> bool {
        is_duration(self.secs, self.nanos)
    }

    /// The duration of `secs` seconds and `nanos` nanoseconds more, if `nanos` is
    /// less than a second and the whole is in range.
    pub fn new(secs: i64, nanos: u32) -> (r: Option<Duration>)
        ensures
            match r {
                Some(d) => is_duration(secs, nanos) && d@ == total_nanos(secs as int, nanos as int),
                None => !is_duration(secs, nanos),
            },
    {
        let max_secs: i64 = 9_223_372_036_854_775;
        let min_secs: i64 = -9_223_372_036_854_776;
        if nanos >= NANOS_PER_SEC || secs < min_secs || secs > max_secs || (secs == max_secs
            && nanos > 807_000_000) || (secs == min_secs && nanos < 193_000_000) {
            None
        } else {
            Some(Duration { secs, nanos })
        }
    }

    /// The normal form of seconds and signed nanoseconds.
    fn normalized(secs: i64, nanos: i32) -> (r: Duration)
        requires
            -1_000_000_000 < nanos < 1_000_000_000,
            in_duration_range(total_nanos(secs as int, nanos as int)),
        ensures
            r@ == total_nanos(secs as int, nanos as int),
    {
        if nanos < 0 {
            Duration { secs: secs - 1, nanos: (nanos + 1_000_000_000) as u32 }
        } else {
            Duration { secs, nanos: nanos as u32 }
        }
    }

    /// The duration of `nanos` nanoseconds.
    pub fn nanoseconds(nanos: i64) -> (r: Duration)
        ensures
            r@ == nanos,
    {
        let (s, n) = delta_of_nanoseconds(nanos);
        Duration::normalized(s, n)
    }

    /// The whole length in nanoseconds, if an `i64` holds it.
    pub fn num_nanoseconds(self) -> (r: Option<i64>)
        ensures
            r == if i64::MIN <= self@ <= i64::MAX {
                Some(self@ as i64)
            } else {
                None
            },
    {
        proof {
            use_type_invariant(&self);
        }
        delta_num_nanoseconds(self.secs, self.nanos)
    }

    /// Whole seconds, rounded down.
    pub fn whole_seconds(self) -> (r: i64)
        ensures
            r == self@ / 1_000_000_000,
    {
        proof {
            use_type_invariant(&self);
        }
        self.secs
    }

    /// Nanoseconds past the whole seconds.
    pub fn subsec_nanos(self) -> (r: u32)
        ensures
            r == self@ % 1_000_000_000,
    {
        proof {
            use_type_invariant(&self);
        }
        self.nanos
    }

    /// The sum, if it is in range.
    pub fn checked_add(self, other: Duration) -> (r: Option<Duration>)
        ensures
            match r {
                Some(d) => in_duration_range(self@ + other@) && d@ == self@ + other@,
                None => !in_duration_range(self@ + other@),
            },
    {
        proof {
            use_type_invariant(&self);
            use_type_invariant(&other);
        }
        match delta_checked_add(self.secs, self.nanos, other.secs, other.nanos) {
            Some((s, n)) => Some(Duration::normalized(s, n)),
            None => None,
        }
    }

    /// The difference, if it is in range.
    pub fn checked_sub(self, other: Duration) -> (r: Option<Duration>)
        ensures
            match r {
                Some(d) => in_duration_range(self@ - other@) && d@ == self@ - other@,
                None => !in_duration_range(self@ - other@),
            },
    {
        proof {
            use_type_invariant(&self);
            use_type_invariant(&other);
        }
        match delta_checked_sub(self.secs, self.nanos, other.secs, other.nanos) {
            Some((s, n)) => Some(Duration::normalized(s, n)),
            None => None,
        }
    }

    /// The opposite duration.
    pub fn negate(self) -> (r: Duration)
        ensures
            r@ == -self@,
    {
        proof {
            use_type_invariant(&self);
        }
        match delta_negate(self.secs, self.nanos) {
            Some((s, n)) => Duration::normalized(s, n),
            None => self,
        }
    }

    /// Whether the duration is empty.
    pub fn is_zero(self) -> (r: bool)
        ensures
            r == (self@ == 0),
    {
        proof {
            use_type_invariant(&self);
        }
        self.secs == 0 && self.nanos == 0
    }

    /// The order of two durations by length.
    pub fn order(self, other: Duration) -> (r: Order)
        ensures
            r == int_order(self@, other@),
    {
        proof {
            use_type_invariant(&self);
            use_type_invariant(&other);
        }
        if self.secs == other.secs {
            order_i64(self.nanos as i64, other.nanos as i64)
        } else {
            order_i64(self.secs, other.secs)
        }
    }
}

/// A point in time and the UTC offset it is written with.
#[derive(Clone, Copy, Debug, PartialEq, Eq, Structural)]
pub struct Timestamp {
    secs: i64,
    nanos: u32,
    offset: i32,
}

impl View for Timestamp {
    type V = Instant;

    closed spec fn view(&self) -> Instant {
        instant_at(self.secs as int, self.nanos as int, self.offset as int)
    }
}

/// An offset is less than a day.
pub open spec fn is_offset(offset: int) -> bool {
    -86_400 < offset < 86_400
}

impl Timestamp {
    #[verifier::type_invariant]
    spec fn inv(self) -> bool {
        is_instant(self.secs, self.nanos) && is_offset(self.offset as int)
    }

    /// The instant `secs` seconds and `nanos` nanoseconds after the Unix epoch,
    /// written with `offset`, if there is such a one. A second or more of nanoseconds
    /// is a leap second, after the last second of a minute.
    pub fn new(secs: i64, nanos: u32, offset: i32) -> (r: Option<Timestamp>)
        ensures
            match r {
                Some(t) => is_instant(secs, nanos) && is_offset(offset as int) && t@ == instant_at(
                    secs as int,
                    nanos as int,
                    offset as int,
                ),
                None => !(is_instant(secs, nanos) && is_offset(offset as int)),
            },
    {
        if secs < MIN_INSTANT_SECS || secs > MAX_INSTANT_SECS || offset <= -86_400 || offset
            >= 86_400 {
            return None;
        }
        let last = (secs - MIN_INSTANT_SECS) as u64 % 60 == 59;
        if nanos < NANOS_PER_SEC || (nanos < 2_000_000_000 && last) {
            Some(Timestamp { secs, nanos, offset })
        } else {
            None
        }
    }

    /// The instant `nanos` nanoseconds after the Unix epoch, written with `offset`,
    /// if that is an offset.
    pub fn from_nanoseconds(nanos: i64, offset: i32) -> (r: Option<Timestamp>)
        ensures
            match r {
                Some(t) => is_offset(offset as int) && t@ == (Instant {
                    nanos: nanos as int,
                    leap: false,
                    offset: offset as int,
                }),
                None => !is_offset(offset as int),
            },
    {
        if -86_400 < offset && offset < 86_400 {
            let (secs, sub) = instant_of_nanoseconds(nanos);
            Some(Timestamp { secs, nanos: sub, offset })
        } else {
            None
        }
    }

    /// The instant `nanos` nanoseconds after the Unix epoch, in UTC.
    pub fn utc_from_nanoseconds(nanos: i64) -> (r: Timestamp)
        ensures
            r@ == (Instant { nanos: nanos as int, leap: false, offset: 0 }),
    {
        let (secs, sub) = instant_of_nanoseconds(nanos);
        Timestamp { secs, nanos: sub, offset: 0 }
    }

    /// Nanoseconds since the Unix epoch, if an `i64` holds them.
    pub fn num_nanoseconds(self) -> (r: Option<i64>)
        ensures
            r == if i64::MIN <= self@.nanos <= i64::MAX {
                Some(self@.nanos as i64)
            } else {
                None
            },
    {
        proof {
            use_type_invariant(&self);
        }
        instant_num_nanoseconds(self.secs, self.nanos)
    }

    /// Seconds since the Unix epoch, rounded down. A leap second is part of the second
    /// before.
    pub fn whole_seconds(self) -> (r: i64)
        ensures
            r == self@.secs(),
    {
        proof {
            use_type_invariant(&self);
        }
        self.secs
    }

    /// Nanoseconds past the whole seconds: a second or more in a leap second.
    pub fn subsec_nanos(self) -> (r: u32)
        ensures
            r == self@.frac(),
    {
        proof {
            use_type_invariant(&self);
        }
        self.nanos
    }

    /// Whether two timestamps have the same count of nanoseconds, in a leap second or
    /// not.
    pub(crate) fn same_nanoseconds(self, other: Timestamp) -> (r: bool)
        ensures
            r == (self@.nanos == other@.nanos),
    {
        proof {
            use_type_invariant(&self);
            use_type_invariant(&other);
        }
        if self.secs == other.secs {
            self.nanos == other.nanos
        } else if self.secs + 1 == other.secs {
            self.nanos == other.nanos + NANOS_PER_SEC
        } else if other.secs + 1 == self.secs {
            other.nanos == self.nanos + NANOS_PER_SEC
        } else {
            false
        }
    }

    /// The seconds by which local time runs ahead of UTC.
    pub fn offset(self) -> (r: i32)
        ensures
            r == self@.offset,
            is_offset(r as int),
    {
        proof {
            use_type_invariant(&self);
        }
        self.offset
    }

    /// The instant `d` later, with the same offset, if the calendar reaches it.
    pub fn checked_add(self, d: Duration) -> (r: Option<Timestamp>)
        ensures
            match r {
                Some(t) => in_instant_range(self@.moved(d@)) && t@ == self@.moved(d@),
                None => !in_instant_range(self@.moved(d@)),
            },
    {
        proof {
            use_type_invariant(&self);
            use_type_invariant(&d);
        }
        match instant_checked_add(self.secs, self.nanos, d.secs, d.nanos) {
            Some((secs, nanos)) => Some(Timestamp { secs, nanos, offset: self.offset }),
            None => None,
        }
    }

    /// The instant `d` earlier, with the same offset, if the calendar reaches it.
    pub fn checked_sub(self, d: Duration) -> (r: Option<Timestamp>)
        ensures
            match r {
                Some(t) => in_instant_range(self@.moved(-d@)) && t@ == self@.moved(-d@),
                None => !in_instant_range(self@.moved(-d@)),
            },
    {
        proof {
            use_type_invariant(&self);
            use_type_invariant(&d);
        }
        match instant_checked_sub(self.secs, self.nanos, d.secs, d.nanos) {
            Some((secs, nanos)) => Some(Timestamp { secs, nanos, offset: self.offset }),
            None => None,
        }
    }

    /// The duration from `other` to this instant.
    pub fn since(self, other: Timestamp) -> (r: Duration)
        ensures
            r@ == self@.since(other@),
    {
        proof {
            use_type_invariant(&self);
            use_type_invariant(&other);
        }
        match instant_since(self.secs, self.nanos, other.secs, other.nanos) {
            Some((s, n)) => Duration::normalized(s, n),
            None => Duration { secs: 0, nanos: 0 },
        }
    }

    /// Whether arithmetic may produce this instant.
    pub fn is_within_limits(self) -> (r: bool)
        ensures
            r == in_timestamp_limits(self@),
    {
        proof {
            use_type_invariant(&self);
        }
        MIN_TIMESTAMP_SECS <= self.secs && (self.secs < MAX_TIMESTAMP_SECS || (self.secs
            == MAX_TIMESTAMP_SECS && self.nanos < NANOS_PER_SEC))
    }

    /// The order of two timestamps: by instant, whatever their offsets.
    pub fn order(self, other: Timestamp) -> (r: Order)
        ensures
            r == int_order(self@.rank(), other@.rank()),
    {
        proof {
            use_type_invariant(&self);
            use_type_invariant(&other);
        }
        if self.secs == other.secs {
            order_i64(self.nanos as i64, other.nanos as i64)
        } else {
            order_i64(self.secs, other.secs)
        }
    }
}

} // verus!
