//! UTC instants as plain numbers, and the even minutes on which WSPR starts.

use vstd::prelude::*;

verus! {

/// Nanoseconds in one second.
pub const NANOS_PER_SEC: u32 = 1_000_000_000;

/// Seconds in one WSPR cycle: transmissions start on even UTC minutes.
pub const CYCLE_SECS: u64 = 120;

/// Seconds in a day.
pub const DAY_SECS: u64 = 86_400;

/// An instant on the UTC time line: `secs` whole seconds after the Unix epoch
/// (negative before it) plus `nanos` further nanoseconds.
#[derive(Debug, Clone, Copy, PartialEq, Eq, Structural)]
pub struct Timestamp {
    /// Seconds since 1970-01-01 00:00:00 UTC.
    pub secs: i64,
    /// Nanoseconds past `secs`.
    pub nanos: u32,
}

impl Timestamp {
    /// Nanoseconds from the Unix epoch to this instant.
    pub open spec fn total_nanos(self) -> int {
        self.secs * NANOS_PER_SEC + self.nanos
    }

    /// Whole seconds from the Unix epoch, rounded down; negative before it.
    pub open spec fn epoch_secs(self) -> int {
        self.total_nanos() / NANOS_PER_SEC as int
    }

    /// Whether this instant is the start of an even UTC minute.
    pub open spec fn is_even_minute(self) -> bool {
        &&& self.nanos == 0
        &&& self.secs as int % CYCLE_SECS as int == 0
    }

    /// Seconds from the Unix epoch to the even minute at or before this instant.
    pub open spec fn boundary_secs(self) -> int {
        self.epoch_secs() / CYCLE_SECS as int * CYCLE_SECS
    }

    /// Whether the even minute at or before this instant is a [`Timestamp`].
    /// For all but the earliest seconds that there are it is.
    pub open spec fn has_boundary(self) -> bool {
        self.boundary_secs() >= i64::MIN
    }

    /// The instant `secs` seconds after the Unix epoch.
    pub fn from_unix_secs(secs: i64) -> (r: Timestamp)
        ensures
            r == (Timestamp { secs, nanos: 0 }),
            r.total_nanos() == secs * NANOS_PER_SEC,
    {
        Timestamp { secs, nanos: 0 }
    }

    /// Whole seconds since the Unix epoch, rounded down; negative before it.
    pub fn secs_since_epoch(&self) -> (r: i128)
        ensures
            r == self.epoch_secs(),
            i64::MIN <= r <= i64::MAX + 4,
    {
        self.secs as i128 + (self.nanos / NANOS_PER_SEC) as i128
    }

    /// Seconds since the last UTC midnight, rounded down.
    pub fn second_of_day(&self) -> (r: u64)
        ensures
            r == self.epoch_secs() % DAY_SECS as int,
    {
        let secs: i128 = self.secs_since_epoch();
        let day: u128 = DAY_SECS as u128;
        if secs >= 0 {
            (secs as u128 % day) as u64
        } else {
            let short: u128 = (-secs) as u128 % day;
            if short == 0 {
                0
            } else {
                (day - short) as u64
            }
        }
    }

    /// Whether the even minute at or before this instant is a [`Timestamp`].
    pub fn boundary_fits(&self) -> (r: bool)
        ensures
            r == self.has_boundary(),
    {
        aligned_secs(self.secs_since_epoch()) >= i64::MIN as i128
    }
}

/// The largest multiple of a cycle's seconds that is at most `secs`.
fn aligned_secs(secs: i128) -> (r: i128)
    requires
        i64::MIN <= secs <= i64::MAX + 4,
    ensures
        r == secs as int / CYCLE_SECS as int * CYCLE_SECS,
        secs - CYCLE_SECS < r <= secs,
{
    let cycle: u128 = CYCLE_SECS as u128;
    if secs >= 0 {
        (secs as u128 / cycle * cycle) as i128
    } else {
        let before: u128 = (-secs) as u128;
        let r: i128 = -(((before + (cycle - 1)) / cycle * cycle) as i128);
        r
    }
}

/// Nanoseconds from `start` to `now`, 0 where `now` is earlier.
pub open spec fn elapsed(now: Timestamp, start: Timestamp) -> int {
    if now.total_nanos() < start.total_nanos() {
        0
    } else {
        now.total_nanos() - start.total_nanos()
    }
}

/// Nanoseconds from `start` to `now`; a `now` before `start` counts as no time
/// at all.
pub fn elapsed_nanos(now: Timestamp, start: Timestamp) -> (r: u128)
    ensures
        r == elapsed(now, start),
{
    proof {
        assert(-0x8000_0000_0000_0000 <= start.secs <= 0x7fff_ffff_ffff_ffff);
        assert(-0x8000_0000_0000_0000 <= now.secs <= 0x7fff_ffff_ffff_ffff);
    }
    let from: i128 = start.secs as i128 * NANOS_PER_SEC as i128 + start.nanos as i128;
    let to: i128 = now.secs as i128 * NANOS_PER_SEC as i128 + now.nanos as i128;
    if to < from {
        0
    } else {
        (to - from) as u128
    }
}

/// The even-minute boundary of the cycle that holds `now`.
pub open spec fn boundary_of(now: Timestamp) -> Timestamp {
    Timestamp { secs: now.boundary_secs() as i64, nanos: 0 }
}

/// The most recent even-minute boundary at or before `now`.
///
/// WSPR transmissions start on even UTC minutes, so capture windows are
/// aligned to the most recent even minute.
pub fn even_minute_boundary(now: Timestamp) -> (r: Timestamp)
    requires
        now.has_boundary(),
    ensures
        r == boundary_of(now),
        r.nanos == 0,
        r.secs as int % 120 == 0,
        r.total_nanos() <= now.total_nanos() < r.total_nanos() + CYCLE_SECS * NANOS_PER_SEC,
{
    proof {
        law_boundary_is_the_even_minute_before(now);
    }
    let aligned: i128 = aligned_secs(now.secs_since_epoch());
    Timestamp { secs: aligned as i64, nanos: 0 }
}

/// The boundary of an instant is the start of an even minute at or before it,
/// and the next even minute lies after it.
pub proof fn law_boundary_is_the_even_minute_before(now: Timestamp)
    requires
        now.has_boundary(),
    ensures
        ({
            let start = boundary_of(now);
            let from_start = (now.secs - start.secs) * 1_000_000_000 + now.nanos;
            &&& start.is_even_minute()
            &&& start.nanos == 0
            &&& start.secs as int % 120 == 0
            &&& 0 <= from_start < 120 * 1_000_000_000
            &&& from_start == now.total_nanos() - start.total_nanos()
        }),
{
    assert(now.epoch_secs() <= i64::MAX + 4);
    assert(boundary_of(now).secs == now.boundary_secs());
}

/// An even minute is its own boundary.
pub proof fn law_boundary_of_even_minute_is_itself(now: Timestamp)
    requires
        now.is_even_minute(),
    ensures
        now.has_boundary(),
        boundary_of(now) == now,
{
    assert(now.epoch_secs() == now.secs);
}

/// Later instants have no earlier boundary.
pub proof fn law_boundaries_are_monotone(a: Timestamp, b: Timestamp)
    requires
        a.has_boundary(),
        a.total_nanos() <= b.total_nanos(),
    ensures
        b.has_boundary(),
        boundary_of(a).total_nanos() <= boundary_of(b).total_nanos(),
{
    assert(a.epoch_secs() <= b.epoch_secs() <= i64::MAX + 4);
    assert(boundary_of(a).secs == a.boundary_secs());
    assert(boundary_of(b).secs == b.boundary_secs());
}

/// An instant is its seconds and its nanoseconds after the epoch, and its whole
/// seconds are the second in which it lies.
pub proof fn law_instants_are_seconds_and_nanoseconds(t: Timestamp)
    ensures
        t.total_nanos() == t.secs * 1_000_000_000 + t.nanos,
        t.epoch_secs() * 1_000_000_000 <= t.secs * 1_000_000_000 + t.nanos,
        t.secs * 1_000_000_000 + t.nanos < (t.epoch_secs() + 1) * 1_000_000_000,
        t.is_even_minute() <==> t.nanos == 0 && t.secs as int % 120 == 0,
{
}

/// Every instant has an even minute before it that a [`Timestamp`] can hold,
/// except in the first 8 seconds of all.
pub proof fn law_boundaries_are_missing_only_at_the_start(t: Timestamp)
    ensures
        t.has_boundary() <==> t.secs * 1_000_000_000 + t.nanos >= (i64::MIN + 8) * 1_000_000_000,
{
}

/// The time elapsed since `start` leads from `start` to `now`, and is none where
/// `now` does not come after it.
pub proof fn law_elapsed_leads_from_start_to_now(now: Timestamp, start: Timestamp)
    ensures
        elapsed(now, start) >= 0,
        elapsed(now, start) > 0 ==> start.secs * 1_000_000_000 + start.nanos + elapsed(now, start)
            == now.secs * 1_000_000_000 + now.nanos,
        elapsed(now, start) == 0 <==> now.secs * 1_000_000_000 + now.nanos <= start.secs
            * 1_000_000_000 + start.nanos,
{
}

} // verus!
