//! Instants, hour keys and report-interval keys.

use vstd::arithmetic::div_mod::{lemma_fundamental_div_mod, lemma_fundamental_div_mod_converse};
use chrono::Datelike;
use chrono::TimeZone;
use vstd::prelude::*;

verus! {

/// Seconds in one hour.
pub const SECS_PER_HOUR: i64 = 3600;

/// Seconds in one day.
pub const SECS_PER_DAY: i64 = 86400;

/// Largest distance from the Unix epoch, in seconds, of an instant that the
/// library accepts.  The range lies well inside what the calendar code can
/// represent, with room for any time-zone offset on either side.
pub const MAX_ABS_SECS: i64 = 8_000_000_000_000;

/// The start of the hour that contains the instant `secs`.
pub open spec fn hour_floor(secs: int) -> int {
    secs - secs % 3600
}

/// The start of the day that contains the wall-clock instant `secs`.
pub open spec fn day_floor(secs: int) -> int {
    secs - secs % 86400
}

/// Floors `x` to a multiple of `unit`, rounding toward negative infinity.
fn floor_to(x: i64, unit: i64) -> (r: i64)
    requires
        0 < unit <= SECS_PER_DAY,
        naive_in_range(x as int),
    ensures
        r == x - x % unit,
{
    let m: i64 = x % unit;
    proof {
        let a: int = -x;
        if x < 0 {
            let q: int = a / (unit as int);
            lemma_fundamental_div_mod(a, unit as int);
            assert(m == -(a % (unit as int)));
            assert((-q - 1) * unit + unit == -(unit * q)) by (nonlinear_arith);
            assert(-q * unit == -(unit * q)) by (nonlinear_arith);
            if m < 0 {
                lemma_fundamental_div_mod_converse(x as int, unit as int, -q - 1, m + unit);
            } else {
                lemma_fundamental_div_mod_converse(x as int, unit as int, -q, 0);
            }
        }
    }
    if m < 0 {
        x - (m + unit)
    } else {
        x - m
    }
}


/// An instant, as seconds and nanoseconds since the Unix epoch (UTC).
///
/// `nanos` may reach up to two seconds' worth to stand for a leap second.
#[derive(Clone, Copy, Debug, PartialEq, Eq)]
pub struct Timestamp {
    pub secs: i64,
    pub nanos: u32,
}

impl Timestamp {
    /// The range of instants that the library accepts.
    pub open spec fn wf(self) -> bool {
        -MAX_ABS_SECS <= self.secs <= MAX_ABS_SECS && self.nanos < 2_000_000_000
    }

    /// Whether the instant lies in the accepted range.
    pub fn is_valid(&self) -> (r: bool)
        ensures
            r == self.wf(),
    {
        -MAX_ABS_SECS <= self.secs && self.secs <= MAX_ABS_SECS && self.nanos < 2_000_000_000
    }

    /// Makes an instant, or `None` where the parts lie out of range.
    pub fn new(secs: i64, nanos: u32) -> (r: Option<Timestamp>)
        ensures
            r == (if -MAX_ABS_SECS <= secs <= MAX_ABS_SECS && nanos < 2_000_000_000 {
                Some(Timestamp { secs, nanos })
            } else {
                None::<Timestamp>
            }),
    {
        if -MAX_ABS_SECS <= secs && secs <= MAX_ABS_SECS && nanos < 2_000_000_000 {
            Some(Timestamp { secs, nanos })
        } else {
            None
        }
    }
}

/// Whether `h` is a valid hour key: the start of an hour in the accepted range.
pub open spec fn is_hour_key(h: int) -> bool {
    &&& h % 3600 == 0
    &&& -MAX_ABS_SECS - SECS_PER_HOUR < h <= MAX_ABS_SECS
}

/// The hour key of an instant: the instant with its minutes, seconds and
/// sub-second part set to zero.
pub open spec fn hour_key_of(t: Timestamp) -> int {
    hour_floor(t.secs as int)
}

/// Truncates an instant to the start of the hour that contains it.
pub fn hour_key(t: &Timestamp) -> (r: i64)
    requires
        t.wf(),
    ensures
        r == hour_key_of(*t),
        is_hour_key(r as int),
        r <= t.secs < r + SECS_PER_HOUR,
{
    floor_to(t.secs, SECS_PER_HOUR)
}

/// Whether `secs` is a wall-clock instant that the calendar code can take: an
/// accepted instant shifted by at most two days.
pub open spec fn naive_in_range(secs: int) -> bool {
    -MAX_ABS_SECS - 2 * SECS_PER_DAY <= secs <= MAX_ABS_SECS + 2 * SECS_PER_DAY
}

/// The wall-clock start of the calendar month that contains the wall-clock
/// instant `naive_secs` (seconds counted as if the wall clock were UTC).
pub uninterp spec fn month_start_of(naive_secs: int) -> int;

/// The wall-clock start of the calendar year that contains the wall-clock
/// instant `naive_secs`.
pub uninterp spec fn year_start_of(naive_secs: int) -> int;

/// Relies on chrono's `Local` time zone (`offset_from_utc_datetime`): the
/// host's offset, local minus UTC, at the given instant.  chrono's
/// `FixedOffset` holds an offset strictly within one day.  The result depends
/// on the host's time-zone settings (chrono panics only where the host's
/// time-zone data cannot be read at all).
#[verifier::external_body]
pub(crate) fn local_offset(utc_secs: i64) -> (r: i32)
    requires
        -MAX_ABS_SECS - SECS_PER_HOUR <= utc_secs <= MAX_ABS_SECS,
    ensures
        -SECS_PER_DAY < r < SECS_PER_DAY,
{
    let utc = chrono::DateTime::from_timestamp(utc_secs, 0).unwrap().naive_utc();
    chrono::Local.offset_from_utc_datetime(&utc).local_minus_utc()
}

/// Relies on chrono's calendar (`Datelike::with_day`): midnight on the first
/// day of the month that contains the wall-clock instant.
#[verifier::external_body]
fn month_start(naive_secs: i64) -> (r: i64)
    requires
        naive_in_range(naive_secs as int),
    ensures
        r == month_start_of(naive_secs as int),
{
    let date = chrono::DateTime::from_timestamp(naive_secs, 0).unwrap().date_naive();
    date.with_day(1).unwrap().and_time(chrono::NaiveTime::MIN).and_utc().timestamp()
}

/// Relies on chrono's calendar (`Datelike::with_ordinal`): midnight on the
/// first day of the year that contains the wall-clock instant.
#[verifier::external_body]
fn year_start(naive_secs: i64) -> (r: i64)
    requires
        naive_in_range(naive_secs as int),
    ensures
        r == year_start_of(naive_secs as int),
{
    let date = chrono::DateTime::from_timestamp(naive_secs, 0).unwrap().date_naive();
    date.with_ordinal(1).unwrap().and_time(chrono::NaiveTime::MIN).and_utc().timestamp()
}

/// Relies on chrono's `Local` time zone (`TimeZone::from_local_datetime`,
/// then `single`): the instant, in seconds since the epoch, at which the
/// host's wall clock reads `naive_secs`, where exactly one such instant
/// exists.  chrono finds it by subtracting an offset that lies strictly
/// within one day.  The result depends on the host's time-zone settings.
#[verifier::external_body]
pub(crate) fn local_to_utc(naive_secs: i64) -> (r: Option<i64>)
    requires
        naive_in_range(naive_secs as int),
    ensures
        r matches Some(u) ==> naive_secs - SECS_PER_DAY < u < naive_secs + SECS_PER_DAY,
{
    let naive = chrono::DateTime::from_timestamp(naive_secs, 0).unwrap().naive_utc();
    match chrono::Local.from_local_datetime(&naive).single() {
        Some(t) => Some(t.timestamp()),
        None => None,
    }
}

/// The width of the intervals that a report sums hours into.
#[derive(Clone, Copy, Debug, PartialEq, Eq)]
pub enum Granularity {
    /// One interval per UTC hour.
    Hour,
    /// One interval per local calendar day.
    Day,
    /// One interval per local calendar month.
    Month,
    /// One interval per local calendar year.
    Year,
}

/// The start of the report interval that holds the hour `hour`, where `offset`
/// is the local time zone's offset at that hour.  An hourly interval is keyed
/// by the UTC hour itself; the others by local wall-clock time.
pub open spec fn interval_key(g: Granularity, hour: int, offset: int) -> int {
    match g {
        Granularity::Hour => hour,
        Granularity::Day => day_floor(hour + offset),
        Granularity::Month => month_start_of(hour + offset),
        Granularity::Year => year_start_of(hour + offset),
    }
}

/// The start of the report interval that holds the hour `hour`, where the
/// local time zone's offset at that hour is `offset` seconds.
pub fn bucket_at_offset(g: Granularity, hour: i64, offset: i32) -> (r: i64)
    requires
        is_hour_key(hour as int),
        -SECS_PER_DAY < offset < SECS_PER_DAY,
    ensures
        r == interval_key(g, hour as int, offset as int),
{
    match g {
        Granularity::Hour => hour,
        _ => {
            let local: i64 = hour + offset as i64;
            match g {
                Granularity::Day => floor_to(local, SECS_PER_DAY),
                Granularity::Month => month_start(local),
                _ => year_start(local),
            }
        },
    }
}

/// The start of the report interval that holds the hour `hour`, under the
/// host's local time zone for the calendar granularities.
pub fn hour_bucket(g: Granularity, hour: i64) -> (r: i64)
    requires
        is_hour_key(hour as int),
    ensures
        exists|o: int| -SECS_PER_DAY < o < SECS_PER_DAY && r == #[trigger] interval_key(g, hour as int, o),
        g == Granularity::Hour ==> r == hour,
{
    let offset = match g {
        Granularity::Hour => 0,
        _ => local_offset(hour),
    };
    bucket_at_offset(g, hour, offset)
}

/// Every instant from the start of an hour up to, but excluding, the start
/// of the next, whatever its sub-second part, has that hour's start as its
/// hour key.
pub proof fn hour_truncation(h: int, t: Timestamp)
    requires
        is_hour_key(h),
        h <= t.secs < h + 3600,
    ensures
        hour_key_of(t) == h,
{
    lemma_fundamental_div_mod(h, 3600);
    lemma_fundamental_div_mod_converse(t.secs as int, 3600, h / 3600, t.secs - h);
}

} // verus!



