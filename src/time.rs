//! Absolute time points and spans of time, modelled as whole nanoseconds.

use crate::days::Weekday;
use gregor::DayOfTheWeek as Dow;
use vstd::arithmetic::div_mod::lemma_hoist_over_denominator;
use vstd::prelude::*;

verus! {

/// Nanoseconds in one second.
pub const NANOS_PER_SEC: u32 = 1_000_000_000;

/// A span of time: whole seconds plus a sub-second part in nanoseconds.
#[derive(Clone, Copy, Debug, PartialEq, Eq, Structural)]
pub struct Duration {
    secs: u64,
    nanos: u32,
}

impl Duration {
    /// The whole seconds of the span.
    pub closed spec fn spec_secs(self) -> nat {
        self.secs as nat
    }

    /// The sub-second part of the span, in nanoseconds.
    pub closed spec fn spec_subsec_nanos(self) -> nat {
        self.nanos as nat
    }

    /// Well-formed: the sub-second part is below one second.
    pub open spec fn wf(self) -> bool {
        self.spec_subsec_nanos() < NANOS_PER_SEC
    }

    /// The length of the span in nanoseconds.
    pub open spec fn total_nanos(self) -> int {
        self.spec_secs() * NANOS_PER_SEC + self.spec_subsec_nanos()
    }

    /// A span of `secs` seconds and `nanos` nanoseconds; whole seconds in
    /// `nanos` carry into the seconds.
    pub fn new(secs: u64, nanos: u32) -> (r: Duration)
        requires
            secs + nanos / NANOS_PER_SEC <= u64::MAX,
        ensures
            r.wf(),
            r.total_nanos() == secs * NANOS_PER_SEC + nanos,
    {
        let carry: u32 = nanos / NANOS_PER_SEC;
        Duration { secs: secs + carry as u64, nanos: nanos % NANOS_PER_SEC }
    }

    /// A span of whole seconds.
    pub fn from_secs(secs: u64) -> (r: Duration)
        ensures
            r.wf(),
            r.total_nanos() == secs * NANOS_PER_SEC,
            r.spec_secs() == secs,
            r.spec_subsec_nanos() == 0,
    {
        Duration { secs, nanos: 0 }
    }

    /// The whole seconds of the span.
    pub fn as_secs(&self) -> (r: u64)
        ensures
            r == self.spec_secs(),
    {
        self.secs
    }

    /// The sub-second part of the span, in nanoseconds.
    pub fn subsec_nanos(&self) -> (r: u32)
        ensures
            r == self.spec_subsec_nanos(),
    {
        self.nanos
    }

    /// Two spans are equal exactly when they are equally long.
    pub proof fn lemma_eq_by_length(a: Duration, b: Duration)
        requires
            a.wf(),
            b.wf(),
            a.total_nanos() == b.total_nanos(),
        ensures
            a == b,
    {
        assert(a.secs == b.secs && a.nanos == b.nanos) by (nonlinear_arith)
            requires
                a.secs * 1_000_000_000 + a.nanos == b.secs * 1_000_000_000 + b.nanos,
                a.nanos < 1_000_000_000,
                b.nanos < 1_000_000_000,
        ;
    }
}

/// Seconds in one day.
pub const SECS_PER_DAY: i64 = 86_400;

/// Seconds in one week.
pub const SECS_PER_WEEK: i64 = 604_800;

/// A fixed offset from UTC lies strictly within one day either way.
pub const MAX_OFFSET_MINUTES: i32 = 1440;

/// Local times, in seconds from the epoch, that the calendar conversion
/// handles: about the years 68 to 3871.
pub const CALENDAR_LIMIT: i64 = 60_000_000_000;

/// Whether a count of nanoseconds from the epoch has whole seconds that fit an `i64`.
pub open spec fn instant_fits(t: int) -> bool {
    i64::MIN * NANOS_PER_SEC <= t < (i64::MAX + 1) * NANOS_PER_SEC
}

/// The local day, counted from 1970-01-01, of a local time in seconds.
pub open spec fn day_of(local_seconds: int) -> int {
    local_seconds / (SECS_PER_DAY as int)
}

/// The position in the week (0 for Monday) of a day counted from 1970-01-01,
/// which was a Thursday.
pub open spec fn weekday_of_day(day: int) -> int {
    (day + 3) % 7
}

/// Days from 1 January of year 0 to 1 January of year `y` (from 1 on) in
/// the proleptic Gregorian calendar.
pub open spec fn days_before_year(y: int) -> int {
    365 * y + (y - 1) / 4 - (y - 1) / 100 + (y - 1) / 400 + 1
}

/// gregor takes the year of a day to be the whole part of 400 times the
/// days since 1 January of year 0 over the 146 097 days of 400 years, and
/// panics when that year does not hold the day. This is the set of local
/// days (counted from 1970-01-01) where the estimate is right.
pub open spec fn gregor_converts(day: int) -> bool {
    let days = day + 719_528;
    let y = (days * 400) / 146_097;
    days_before_year(y) <= days < days_before_year(y + 1)
}

/// A leap year of the Gregorian calendar.
pub open spec fn is_leap_year(y: int) -> bool {
    y % 4 == 0 && (y % 100 != 0 || y % 400 == 0)
}

/// Days from 1 January to the first day of month `m` (1 to 12).
pub open spec fn days_before_month(m: int, leap: bool) -> int {
    let common = if m <= 1 {
        0int
    } else if m == 2 {
        31
    } else if m == 3 {
        59
    } else if m == 4 {
        90
    } else if m == 5 {
        120
    } else if m == 6 {
        151
    } else if m == 7 {
        181
    } else if m == 8 {
        212
    } else if m == 9 {
        243
    } else if m == 10 {
        273
    } else if m == 11 {
        304
    } else {
        334
    };
    if leap && m > 2 {
        common + 1
    } else {
        common
    }
}

/// The month (1 to 12) that holds day `doy` (0 for 1 January) of a year.
pub open spec fn month_of_day_of_year(doy: int, leap: bool) -> int {
    if doy >= days_before_month(12, leap) { 12 }
    else if doy >= days_before_month(11, leap) { 11 }
    else if doy >= days_before_month(10, leap) { 10 }
    else if doy >= days_before_month(9, leap) { 9 }
    else if doy >= days_before_month(8, leap) { 8 }
    else if doy >= days_before_month(7, leap) { 7 }
    else if doy >= days_before_month(6, leap) { 6 }
    else if doy >= days_before_month(5, leap) { 5 }
    else if doy >= days_before_month(4, leap) { 4 }
    else if doy >= days_before_month(3, leap) { 3 }
    else if doy >= days_before_month(2, leap) { 2 }
    else { 1 }
}

/// Year, month (1 to 12) and day of the month (from 1) of the proleptic
/// Gregorian calendar, for a day counted from 1970-01-01 that gregor
/// converts (where its year estimate is the year).
pub open spec fn gregorian_date(day: int) -> (int, int, int) {
    let days = day + 719_528;
    let y = (days * 400) / 146_097;
    let doy = days - days_before_year(y);
    let leap = is_leap_year(y);
    let m = month_of_day_of_year(doy, leap);
    (y, m, doy - days_before_month(m, leap) + 1)
}

/// Days from 1 January of year 0 to 1 January of year `y`.
fn days_before(y: u64) -> (r: u64)
    requires
        1 <= y <= 10_000,
    ensures
        r == days_before_year(y as int),
{
    365 * y + (y - 1) / 4 - (y - 1) / 100 + (y - 1) / 400 + 1
}

/// A local calendar date and time of day.
#[derive(Clone, Copy, Debug, PartialEq, Eq, Structural)]
pub struct LocalDateTime {
    pub year: i32,
    pub month: u8,
    pub day: u8,
    pub hour: u8,
    pub minute: u8,
    pub second: u8,
    pub weekday: Weekday,
}

/// What the calendar gives for a local time, in seconds from the epoch.
pub open spec fn calendar_matches(r: LocalDateTime, local_seconds: int) -> bool {
    &&& (r.year as int, r.month as int, r.day as int) == gregorian_date(day_of(local_seconds))
    &&& r.hour == (local_seconds % (SECS_PER_DAY as int)) / 3600
    &&& r.minute == (local_seconds % 3600) / 60
    &&& r.second == local_seconds % 60
    &&& r.weekday.index() == weekday_of_day(day_of(local_seconds))
}

/// Relies on gregor's `DateTime::from_timestamp` with a `FixedOffsetFromUtc`:
/// the local calendar fields of a Unix timestamp. Its date is the proleptic
/// Gregorian date of the local day, its weekday counts whole local days from
/// Thursday 1970-01-01, and its time of day is the remainder. It panics on
/// the days where its year estimate misses, which `requires` leaves out.
#[verifier::external_body]
fn gregorian_local(seconds: i64, offset_minutes: i32) -> (r: LocalDateTime)
    requires
        -MAX_OFFSET_MINUTES < offset_minutes < MAX_OFFSET_MINUTES,
        -CALENDAR_LIMIT <= seconds + 60 * offset_minutes <= CALENDAR_LIMIT,
        gregor_converts(day_of(seconds + 60 * offset_minutes)),
    ensures
        (r.year as int, r.month as int, r.day as int) == gregorian_date(
            day_of(seconds + 60 * offset_minutes),
        ),
        calendar_matches(r, seconds + 60 * offset_minutes),
{
    let offset = gregor::FixedOffsetFromUtc::from_hours_and_minutes(0, offset_minutes);
    let dt = gregor::DateTime::from_timestamp(gregor::UnixTimestamp(seconds), offset);
    let weekday = match dt.day_of_the_week() {
        Dow::Monday => Weekday::Monday,
        Dow::Tuesday => Weekday::Tuesday,
        Dow::Wednesday => Weekday::Wednesday,
        Dow::Thursday => Weekday::Thursday,
        Dow::Friday => Weekday::Friday,
        Dow::Saturday => Weekday::Saturday,
        Dow::Sunday => Weekday::Sunday,
    };
    let n = dt.naive;
    LocalDateTime { year: n.year, month: n.month.to_number(), day: n.day, hour: n.hour, minute: n.minute, second: n.second, weekday }
}

/// A wall-clock instant: seconds and nanoseconds from the epoch (UTC), with a
/// fixed offset from UTC that only the local calendar view uses.
#[derive(Clone, Copy, Debug)]
pub struct Uhr {
    seconds: i64,
    nanos: u32,
    tz_offset_minutes: i32,
}

impl Uhr {
    /// Whole seconds from the epoch.
    pub closed spec fn spec_seconds(self) -> int {
        self.seconds as int
    }

    /// Nanoseconds past the whole second.
    pub closed spec fn spec_nanos(self) -> int {
        self.nanos as int
    }

    /// The offset from UTC, in minutes.
    pub closed spec fn spec_offset_minutes(self) -> int {
        self.tz_offset_minutes as int
    }

    /// Well-formed: the nanoseconds stay below one second and the offset
    /// within a day.
    pub open spec fn wf(self) -> bool {
        &&& 0 <= self.spec_nanos() < NANOS_PER_SEC
        &&& -MAX_OFFSET_MINUTES < self.spec_offset_minutes() < MAX_OFFSET_MINUTES
    }

    /// The instant in nanoseconds from the epoch; order and equality of
    /// clocks go by this alone.
    pub open spec fn instant(self) -> int {
        self.spec_seconds() * NANOS_PER_SEC + self.spec_nanos()
    }

    /// The local time in whole seconds from the epoch.
    pub open spec fn local_seconds(self) -> int {
        self.spec_seconds() + 60 * self.spec_offset_minutes()
    }

    /// The local calendar can be computed for this clock.
    pub open spec fn in_calendar_range(self) -> bool {
        -CALENDAR_LIMIT <= self.local_seconds() <= CALENDAR_LIMIT
    }

    /// The local calendar can be computed for this clock, without a panic
    /// in the calendar conversion.
    pub open spec fn calendar_ok(self) -> bool {
        self.in_calendar_range() && gregor_converts(day_of(self.local_seconds()))
    }

    /// The position in the week (0 for Monday) of the local day.
    pub open spec fn local_weekday(self) -> int {
        weekday_of_day(day_of(self.local_seconds()))
    }

    /// The clock at `seconds` from the epoch, in UTC.
    pub fn from_epoch_seconds(seconds: i64) -> (r: Uhr)
        ensures
            r.wf(),
            r.spec_seconds() == seconds,
            r.spec_nanos() == 0,
            r.spec_offset_minutes() == 0,
            r.instant() == seconds * NANOS_PER_SEC,
    {
        Uhr { seconds, nanos: 0, tz_offset_minutes: 0 }
    }

    /// The clock at `seconds` and `nanos` past the epoch (UTC), shown with an
    /// offset of `offset_minutes` from UTC.
    pub fn from_parts(seconds: i64, nanos: u32, offset_minutes: i32) -> (r: Uhr)
        requires
            nanos < NANOS_PER_SEC,
            -MAX_OFFSET_MINUTES < offset_minutes < MAX_OFFSET_MINUTES,
        ensures
            r.wf(),
            r.spec_seconds() == seconds,
            r.spec_nanos() == nanos,
            r.spec_offset_minutes() == offset_minutes,
    {
        Uhr { seconds, nanos, tz_offset_minutes: offset_minutes }
    }

    /// Whole seconds from the epoch.
    pub fn seconds(&self) -> (r: i64)
        ensures
            r == self.spec_seconds(),
    {
        self.seconds
    }

    /// Nanoseconds past the whole second.
    pub fn subsec_nanos(&self) -> (r: u32)
        ensures
            r == self.spec_nanos(),
    {
        self.nanos
    }

    /// The offset from UTC, in minutes.
    pub fn offset_minutes(&self) -> (r: i32)
        ensures
            r == self.spec_offset_minutes(),
    {
        self.tz_offset_minutes
    }

    /// Moves the clock forward by `dur`; the offset stays.
    pub fn increment(&mut self, dur: &Duration)
        requires
            old(self).wf(),
            dur.wf(),
            instant_fits(old(self).instant() + dur.total_nanos()),
        ensures
            final(self).wf(),
            final(self).instant() == old(self).instant() + dur.total_nanos(),
            final(self).spec_offset_minutes() == old(self).spec_offset_minutes(),
    {
        let ghost start = self.instant();
        let s = self.seconds;
        let n = self.nanos;
        let ds = dur.as_secs();
        let dn = dur.subsec_nanos();
        let sum = n + dn;
        if sum >= NANOS_PER_SEC {
            assert(s + ds + 1 <= i64::MAX) by (nonlinear_arith)
                requires
                    (s + ds) * 1_000_000_000 + sum < (i64::MAX + 1) * 1_000_000_000,
                    sum >= 1_000_000_000,
            ;
            self.seconds = (s as i128 + ds as i128 + 1) as i64;
            self.nanos = sum - NANOS_PER_SEC;
        } else {
            assert(s + ds <= i64::MAX) by (nonlinear_arith)
                requires
                    (s + ds) * 1_000_000_000 + sum < (i64::MAX + 1) * 1_000_000_000,
                    sum >= 0,
            ;
            self.seconds = (s as i128 + ds as i128) as i64;
            self.nanos = sum;
        }
        assert(self.instant() == start + dur.total_nanos()) by (nonlinear_arith)
            requires
                self.instant() == self.seconds * 1_000_000_000 + self.nanos,
                start == s * 1_000_000_000 + n,
                dur.total_nanos() == ds * 1_000_000_000 + dn,
                sum == n + dn,
                sum >= 1_000_000_000 ==> self.seconds == s + ds + 1 && self.nanos == sum - 1_000_000_000,
                sum < 1_000_000_000 ==> self.seconds == s + ds && self.nanos == sum,
        ;
    }

    /// The clock `dur` later than this one, with the same offset.
    pub fn incremented(&self, dur: &Duration) -> (r: Uhr)
        requires
            self.wf(),
            dur.wf(),
            instant_fits(self.instant() + dur.total_nanos()),
        ensures
            r.wf(),
            r.instant() == self.instant() + dur.total_nanos(),
            r.spec_offset_minutes() == self.spec_offset_minutes(),
    {
        let mut r = *self;
        r.increment(dur);
        r
    }

    /// The time from `before` to this clock, or an error when `before` is
    /// the later one.
    pub fn try_duration_since(&self, before: &Uhr) -> (r: Result<Duration, ()>)
        requires
            self.wf(),
            before.wf(),
        ensures
            r is Ok <==> before.instant() <= self.instant(),
            r matches Ok(d) ==> d.wf() && d.total_nanos() == self.instant() - before.instant(),
    {
        if before.seconds > self.seconds || (before.seconds == self.seconds && before.nanos > self.nanos) {
            assert(before.instant() > self.instant()) by (nonlinear_arith)
                requires
                    before.seconds > self.seconds || (before.seconds == self.seconds && before.nanos > self.nanos),
                    before.instant() == before.seconds * 1_000_000_000 + before.nanos,
                    self.instant() == self.seconds * 1_000_000_000 + self.nanos,
                    0 <= before.nanos < 1_000_000_000,
                    0 <= self.nanos < 1_000_000_000,
            ;
            return Err(());
        }
        let delta = self.seconds as i128 - before.seconds as i128;
        let (secs, nanos) = if before.nanos > self.nanos {
            ((delta - 1) as u64, (self.nanos + NANOS_PER_SEC) - before.nanos)
        } else {
            (delta as u64, self.nanos - before.nanos)
        };
        let d = Duration::new(secs, nanos);
        assert(d.total_nanos() == self.instant() - before.instant()) by (nonlinear_arith)
            requires
                d.total_nanos() == secs * 1_000_000_000 + nanos,
                before.instant() == before.seconds * 1_000_000_000 + before.nanos,
                self.instant() == self.seconds * 1_000_000_000 + self.nanos,
                delta == self.seconds - before.seconds,
                before.nanos > self.nanos ==> secs == delta - 1 && nanos == self.nanos + 1_000_000_000 - before.nanos,
                before.nanos <= self.nanos ==> secs == delta && nanos == self.nanos - before.nanos,
        ;
        Ok(d)
    }

    /// The time from `before` to this clock, which must not be earlier.
    pub fn duration_since(&self, before: &Uhr) -> (r: Duration)
        requires
            self.wf(),
            before.wf(),
            before.instant() <= self.instant(),
        ensures
            r.wf(),
            r.total_nanos() == self.instant() - before.instant(),
    {
        match self.try_duration_since(before) {
            Ok(d) => d,
            Err(()) => {
                proof {
                    assert(false);
                }
                Duration::from_secs(0)
            },
        }
    }

    /// Whether the local calendar can be computed for this clock.
    pub fn has_local_calendar(&self) -> (r: bool)
        requires
            self.wf(),
        ensures
            r == self.calendar_ok(),
    {
        let local: i128 = self.seconds as i128 + 60 * (self.tz_offset_minutes as i128);
        if local < -(CALENDAR_LIMIT as i128) || local > CALENDAR_LIMIT as i128 {
            return false;
        }
        // Shift by whole days to divide a non-negative number.
        let shifted = (local + (SECS_PER_DAY as i128) * 694_445) as u64;
        let days: u64 = shifted / (SECS_PER_DAY as u64) + 25_083;
        proof {
            lemma_hoist_over_denominator(local as int, 694_445, SECS_PER_DAY as nat);
            assert(days == day_of(self.local_seconds()) + 719_528);
        }
        let y: u64 = days * 400 / 146_097;
        assert(68 <= y <= 3_872) by (nonlinear_arith)
            requires
                y == days * 400 / 146_097,
                25_083 <= days <= 1_413_972,
        ;
        let lo = days_before(y);
        let hi = days_before(y + 1);
        lo <= days && days < hi
    }

    /// The local calendar date, time of day and weekday of this clock.
    pub fn into_local_date_time(&self) -> (r: LocalDateTime)
        requires
            self.wf(),
            self.calendar_ok(),
        ensures
            calendar_matches(r, self.local_seconds()),
    {
        gregorian_local(self.seconds, self.tz_offset_minutes)
    }

    /// Sets the offset from UTC used by the local calendar view; the instant
    /// does not change.
    pub fn set_local_time_zone(&mut self, offset_minutes: i32)
        requires
            old(self).wf(),
            -MAX_OFFSET_MINUTES < offset_minutes < MAX_OFFSET_MINUTES,
        ensures
            final(self).wf(),
            final(self).spec_seconds() == old(self).spec_seconds(),
            final(self).spec_nanos() == old(self).spec_nanos(),
            final(self).spec_offset_minutes() == offset_minutes,
    {
        self.tz_offset_minutes = offset_minutes;
    }
}

impl PartialEq for Uhr {
    /// Clocks are equal when they show the same instant, whatever their offsets.
    fn eq(&self, other: &Uhr) -> (r: bool) {
        self.seconds == other.seconds && self.nanos == other.nanos
    }
}

impl vstd::std_specs::cmp::PartialEqSpecImpl for Uhr {
    open spec fn obeys_eq_spec() -> bool {
        true
    }

    open spec fn eq_spec(&self, other: &Uhr) -> bool {
        self.spec_seconds() == other.spec_seconds() && self.spec_nanos() == other.spec_nanos()
    }
}

impl PartialOrd for Uhr {
    /// Clocks are ordered by instant, whatever their offsets.
    fn partial_cmp(&self, other: &Uhr) -> (r: Option<core::cmp::Ordering>) {
        if self.seconds < other.seconds {
            Some(core::cmp::Ordering::Less)
        } else if self.seconds > other.seconds {
            Some(core::cmp::Ordering::Greater)
        } else if self.nanos < other.nanos {
            Some(core::cmp::Ordering::Less)
        } else if self.nanos > other.nanos {
            Some(core::cmp::Ordering::Greater)
        } else {
            Some(core::cmp::Ordering::Equal)
        }
    }
}

impl vstd::std_specs::cmp::PartialOrdSpecImpl for Uhr {
    open spec fn obeys_partial_cmp_spec() -> bool {
        true
    }

    open spec fn partial_cmp_spec(&self, other: &Uhr) -> Option<core::cmp::Ordering> {
        if self.spec_seconds() < other.spec_seconds() {
            Some(core::cmp::Ordering::Less)
        } else if self.spec_seconds() > other.spec_seconds() {
            Some(core::cmp::Ordering::Greater)
        } else if self.spec_nanos() < other.spec_nanos() {
            Some(core::cmp::Ordering::Less)
        } else if self.spec_nanos() > other.spec_nanos() {
            Some(core::cmp::Ordering::Greater)
        } else {
            Some(core::cmp::Ordering::Equal)
        }
    }
}

/// For well-formed clocks, the order of (seconds, nanoseconds) is the order of
/// instants.
pub proof fn lemma_instant_order(a: Uhr, b: Uhr)
    requires
        a.wf(),
        b.wf(),
    ensures
        a.instant() < b.instant() <==> (a.spec_seconds() < b.spec_seconds() || (a.spec_seconds()
            == b.spec_seconds() && a.spec_nanos() < b.spec_nanos())),
        a.instant() == b.instant() <==> (a.spec_seconds() == b.spec_seconds() && a.spec_nanos()
            == b.spec_nanos()),
{
    let (sa, na, sb, nb) = (a.spec_seconds(), a.spec_nanos(), b.spec_seconds(), b.spec_nanos());
    assert(sa * 1_000_000_000 + na < sb * 1_000_000_000 + nb <==> (sa < sb || (sa == sb && na < nb)))
        by (nonlinear_arith)
        requires
            0 <= na < 1_000_000_000,
            0 <= nb < 1_000_000_000,
    ;
    assert(sa * 1_000_000_000 + na == sb * 1_000_000_000 + nb <==> (sa == sb && na == nb))
        by (nonlinear_arith)
        requires
            0 <= na < 1_000_000_000,
            0 <= nb < 1_000_000_000,
    ;
}

/// Measuring the span `d` from a clock `a` to a clock `b` that is not earlier
/// (`b.try_duration_since(&a)` succeeds and gives it), then moving `a` forward
/// by `d` (which `a.incremented(&d)` accepts) lands exactly on `b`.
pub proof fn lemma_duration_since_then_increment(a: Uhr, b: Uhr, d: Duration)
    requires
        a.wf(),
        b.wf(),
        a.instant() <= b.instant(),
        d.wf(),
        d.total_nanos() == b.instant() - a.instant(),
    ensures
        instant_fits(a.instant() + d.total_nanos()),
        a.instant() + d.total_nanos() == b.instant(),
{
    let (sb, nb) = (b.spec_seconds(), b.spec_nanos());
    assert(instant_fits(sb * 1_000_000_000 + nb)) by (nonlinear_arith)
        requires
            i64::MIN <= sb <= i64::MAX,
            0 <= nb < 1_000_000_000,
    ;
}

/// Moving a clock `t` forward by a span `d` and measuring back from `t` gives
/// `d` again: for the clock `u` that `t.incremented(&d)` returns,
/// `u.try_duration_since(&t)` succeeds, and any span it can return is `d`.
pub proof fn lemma_increment_then_duration_since(t: Uhr, d: Duration, u: Uhr, e: Duration)
    requires
        t.wf(),
        d.wf(),
        u.wf(),
        u.instant() == t.instant() + d.total_nanos(),
        e.wf(),
        e.total_nanos() == u.instant() - t.instant(),
    ensures
        t.instant() <= u.instant(),
        e == d,
{
    assert(d.total_nanos() >= 0) by (nonlinear_arith)
        requires
            d.spec_secs() >= 0,
            d.spec_subsec_nanos() >= 0,
            d.total_nanos() == d.spec_secs() * 1_000_000_000 + d.spec_subsec_nanos(),
    ;
    Duration::lemma_eq_by_length(e, d);
}

} // verus!
