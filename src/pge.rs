//! Records of the utility's electricity usage files.

use crate::common::{Error, NetEnergyUsed, WattHours};
use crate::time::{local_to_utc, Timestamp, MAX_ABS_SECS, SECS_PER_DAY};
use vstd::prelude::*;

verus! {

/// Lines of account information that precede the table in a usage file.
pub const NSKIP: usize = 5;

/// Span, in seconds, between the start and end times that a usage record
/// gives for one hour: the times are written to the minute, so an hour from
/// 01:00 reads as ending at 01:59.
pub const EXPECTED_RECORD_INTERVAL: i64 = 59 * 60;

/// Whether `p` is a prefix of `s`.
pub open spec fn has_prefix(s: Seq<char>, p: Seq<char>) -> bool {
    p.len() <= s.len() && s.subrange(0, p.len() as int) == p
}

/// Whether `x` is a suffix of `s`.
pub open spec fn has_suffix(s: Seq<char>, x: Seq<char>) -> bool {
    x.len() <= s.len() && s.subrange(s.len() - x.len(), s.len() as int) == x
}

/// Relies on `str::starts_with` with a string pattern: whether `prefix` is a
/// prefix of `s`.
#[verifier::external_body]
fn starts_with(s: &str, prefix: &str) -> (r: bool)
    ensures
        r == has_prefix(s@, prefix@),
{
    s.starts_with(prefix)
}

/// Relies on `str::ends_with` with a string pattern: whether `suffix` is a
/// suffix of `s`.
#[verifier::external_body]
fn ends_with(s: &str, suffix: &str) -> (r: bool)
    ensures
        r == has_suffix(s@, suffix@),
{
    s.ends_with(suffix)
}

/// Whether a file of this name holds usage data: the utility names them
/// `pge_electric_interval_data_*.csv`.
pub fn is_data_file_name(name: &str) -> (r: bool)
    ensures
        r == (has_prefix(name@, "pge_electric_interval_data_"@) && has_suffix(name@, ".csv"@)),
{
    starts_with(name, "pge_electric_interval_data_") && ends_with(name, ".csv")
}

/// Whether a wall-clock start time lies far enough inside the accepted range
/// that the instant it names does too, whatever the time zone.
pub open spec fn start_in_range(naive_start: int) -> bool {
    -MAX_ABS_SECS + SECS_PER_DAY <= naive_start <= MAX_ABS_SECS - SECS_PER_DAY
}

/// The net usage of a record that starts at wall-clock time `naive_start`,
/// given `utc_start`, the instant at which the local clock read that time
/// (`None` where there is no single such instant).
pub fn usage_from_utc_start(naive_start: i64, utc_start: Option<i64>, usage: WattHours) -> (r: Result<NetEnergyUsed, Error>)
    requires
        utc_start matches Some(u) ==> -MAX_ABS_SECS <= u <= MAX_ABS_SECS,
    ensures
        match utc_start {
            Some(u) => r == Ok::<NetEnergyUsed, Error>(
                NetEnergyUsed { timestamp_start_utc: Timestamp { secs: u, nanos: 0 }, net_used_wh: usage },
            ),
            None => (r matches Err(Error::AmbiguousLocalTime(t)) && t == naive_start),
        },
{
    match utc_start {
        Some(u) => Ok(NetEnergyUsed { timestamp_start_utc: Timestamp { secs: u, nanos: 0 }, net_used_wh: usage }),
        None => Err(Error::AmbiguousLocalTime(naive_start)),
    }
}

/// The net usage of a record that runs from wall-clock time `naive_start` to
/// `naive_end` (seconds, counted as if the local clock were UTC) and reports
/// `usage`.  The record must span [`EXPECTED_RECORD_INTERVAL`]; its start is
/// turned into an instant through the host's local time zone.
pub fn net_energy_from_record(naive_start: i64, naive_end: i64, usage: WattHours) -> (r: Result<NetEnergyUsed, Error>)
    ensures
        naive_end - naive_start != EXPECTED_RECORD_INTERVAL ==> (r matches Err(Error::UnexpectedInterval(a, b))
            && a == naive_start && b == naive_end),
        naive_end - naive_start == EXPECTED_RECORD_INTERVAL && !start_in_range(naive_start as int)
            ==> (r matches Err(Error::OutOfRange(t)) && t == naive_start),
        naive_end - naive_start == EXPECTED_RECORD_INTERVAL && start_in_range(naive_start as int) ==> match r {
            Ok(u) => {
                &&& u.net_used_wh == usage
                &&& u.timestamp_start_utc.wf()
                &&& u.timestamp_start_utc.nanos == 0
                &&& naive_start - SECS_PER_DAY < u.timestamp_start_utc.secs < naive_start + SECS_PER_DAY
            },
            Err(e) => (e matches Error::AmbiguousLocalTime(t) && t == naive_start),
        },
{
    let interval: i128 = naive_end as i128 - naive_start as i128;
    if interval != EXPECTED_RECORD_INTERVAL as i128 {
        return Err(Error::UnexpectedInterval(naive_start, naive_end));
    }
    if naive_start < -MAX_ABS_SECS + SECS_PER_DAY || naive_start > MAX_ABS_SECS - SECS_PER_DAY {
        return Err(Error::OutOfRange(naive_start));
    }
    let utc_start = local_to_utc(naive_start);
    usage_from_utc_start(naive_start, utc_start, usage)
}

} // verus!
