//! Energy quantities, readings and labels shared by every data source.

use crate::time::Timestamp;
use vstd::prelude::*;

verus! {

/// Largest magnitude, in Watt-hours, of the energy that one source may report
/// for one hour in one category.  A reading that would take a source's hourly
/// total beyond it is treated as malformed.  The bound keeps every sum that a
/// report forms, over any span of hours, within 64 bits.
pub const MAX_HOURLY_WH: i64 = 1_000_000_000;

/// An amount of energy in Watt-hours.
#[derive(Clone, Copy, Debug, PartialEq, Eq, Structural)]
pub struct WattHours(pub i64);

impl WattHours {
    /// The amount as a mathematical integer.
    pub open spec fn wh(self) -> int {
        self.0 as int
    }

    /// An amount of `wh` Watt-hours.
    pub fn from_wh(wh: i64) -> (r: WattHours)
        ensures
            r.wh() == wh,
    {
        WattHours(wh)
    }

    /// The amount in Watt-hours.
    pub fn as_wh(&self) -> (r: i64)
        ensures
            r == self.wh(),
    {
        self.0
    }

    /// Adds `rhs` to this amount.
    pub fn add_assign(&mut self, rhs: WattHours)
        requires
            i64::MIN <= old(self).wh() + rhs.wh() <= i64::MAX,
        ensures
            final(self).wh() == old(self).wh() + rhs.wh(),
    {
        self.0 = self.0 + rhs.0;
    }

    /// Subtracts `rhs` from this amount.
    pub fn sub_assign(&mut self, rhs: WattHours)
        requires
            i64::MIN <= old(self).wh() - rhs.wh() <= i64::MAX,
        ensures
            final(self).wh() == old(self).wh() - rhs.wh(),
    {
        self.0 = self.0 - rhs.0;
    }
}

impl From<i32> for WattHours {
    fn from(value: i32) -> (r: WattHours) {
        WattHours(value as i64)
    }
}

impl vstd::std_specs::convert::FromSpecImpl<i32> for WattHours {
    open spec fn obeys_from_spec() -> bool {
        true
    }

    open spec fn from_spec(v: i32) -> WattHours {
        WattHours(v as i64)
    }
}

/// Energy produced during one hour, as reported by a production meter.
#[derive(Clone, Copy, Debug, PartialEq, Eq)]
pub struct EnergyProduced {
    /// Start of the reported period.
    pub datetime_utc: Timestamp,
    /// Offset of the reporting site's local time from UTC, in seconds, at
    /// `datetime_utc`.
    pub local_offset_secs: i32,
    pub energy_wh: WattHours,
}

/// Net energy drawn from the grid during one hour (negative when exported).
#[derive(Clone, Copy, Debug, PartialEq, Eq)]
pub struct NetEnergyUsed {
    pub timestamp_start_utc: Timestamp,
    pub net_used_wh: WattHours,
}

/// An amount of energy over a period that starts at `datetime`, whatever its
/// source.
#[derive(Clone, Copy, Debug, PartialEq, Eq)]
pub struct Energy {
    pub datetime: Timestamp,
    pub energy_wh: WattHours,
}

impl From<EnergyProduced> for Energy {
    fn from(e: EnergyProduced) -> (r: Energy) {
        Energy { datetime: e.datetime_utc, energy_wh: e.energy_wh }
    }
}

impl vstd::std_specs::convert::FromSpecImpl<EnergyProduced> for Energy {
    open spec fn obeys_from_spec() -> bool {
        true
    }

    open spec fn from_spec(e: EnergyProduced) -> Energy {
        Energy { datetime: e.datetime_utc, energy_wh: e.energy_wh }
    }
}

impl From<NetEnergyUsed> for Energy {
    fn from(u: NetEnergyUsed) -> (r: Energy) {
        Energy { datetime: u.timestamp_start_utc, energy_wh: u.net_used_wh }
    }
}

impl vstd::std_specs::convert::FromSpecImpl<NetEnergyUsed> for Energy {
    open spec fn obeys_from_spec() -> bool {
        true
    }

    open spec fn from_spec(u: NetEnergyUsed) -> Energy {
        Energy { datetime: u.timestamp_start_utc, energy_wh: u.net_used_wh }
    }
}

/// Label of a data source, such as the path of the file it came from.  Two
/// sources are the same source when their labels are equal.
#[derive(Debug)]
pub struct Source(String);

impl Source {
    /// The label as a sequence of characters.
    pub closed spec fn view(&self) -> Seq<char> {
        self.0@
    }

    pub fn new(label: &str) -> (r: Source)
        ensures
            r@ == label@,
    {
        Source(label.to_owned())
    }

    /// The label.
    pub fn label(&self) -> (r: &str)
        ensures
            r@ == self@,
    {
        self.0.as_str()
    }

    /// Whether two sources carry the same label.
    pub fn same_as(&self, other: &Source) -> (r: bool)
        ensures
            r == (self@ == other@),
    {
        self.0 == other.0
    }
}

/// Why the library refused an input.
#[derive(Debug)]
pub enum Error {
    /// A source with this label was loaded already.
    DuplicateSource(Source),
    /// A usage record runs between these wall-clock times (in seconds), which
    /// do not span one hour as the utility writes it (59 minutes).
    UnexpectedInterval(i64, i64),
    /// A local wall-clock time does not name exactly one instant (it was
    /// skipped or repeated by a daylight-saving change).
    AmbiguousLocalTime(i64),
    /// A time lies outside the range of instants that the library accepts.
    OutOfRange(i64),
}

} // verus!
