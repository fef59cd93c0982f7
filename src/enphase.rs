//! Production readings from the solar-monitoring service.

use crate::common::{EnergyProduced, Error, WattHours};
use crate::time::{local_offset, Timestamp, MAX_ABS_SECS, SECS_PER_DAY};
use vstd::prelude::*;

verus! {

/// Length, in seconds, of the intervals that the service reports.
pub const SERVICE_INTERVAL_SECS: i64 = 300;

/// The production reading of a service interval that ends at `end_at`
/// (seconds since the epoch) and produced `enwh` Watt-hours: it starts one
/// interval earlier, and carries the host's local offset at its start.
pub fn produced_from_interval(end_at: i64, enwh: i32) -> (r: Result<EnergyProduced, Error>)
    ensures
        -MAX_ABS_SECS <= end_at - SERVICE_INTERVAL_SECS <= MAX_ABS_SECS ==> match r {
            Ok(e) => {
                &&& e.datetime_utc == (Timestamp { secs: (end_at - SERVICE_INTERVAL_SECS) as i64, nanos: 0 })
                &&& e.energy_wh.wh() == enwh
                &&& -SECS_PER_DAY < e.local_offset_secs < SECS_PER_DAY
            },
            Err(_) => false,
        },
        !(-MAX_ABS_SECS <= end_at - SERVICE_INTERVAL_SECS <= MAX_ABS_SECS) ==> (r matches Err(Error::OutOfRange(t))
            && t == end_at),
{
    if end_at < -MAX_ABS_SECS + SERVICE_INTERVAL_SECS || end_at > MAX_ABS_SECS + SERVICE_INTERVAL_SECS {
        return Err(Error::OutOfRange(end_at));
    }
    let start = end_at - SERVICE_INTERVAL_SECS;
    Ok(EnergyProduced {
        datetime_utc: Timestamp { secs: start, nanos: 0 },
        local_offset_secs: local_offset(start),
        energy_wh: WattHours(enwh as i64),
    })
}

} // verus!
