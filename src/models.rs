//! Records of the solar-monitoring service's web interface.

use vstd::prelude::*;

verus! {

/// An error that the service reports for a malformed request.
#[derive(Clone, Debug, PartialEq)]
pub struct ClientError {
    pub reason: String,
    pub message: Vec<String>,
}

impl ClientError {
    pub fn new(reason: String, message: Vec<String>) -> (r: ClientError)
        ensures
            r.reason == reason,
            r.message == message,
    {
        ClientError { reason, message }
    }
}

/// A meter of a site's inventory.
#[derive(Clone, Debug, PartialEq)]
pub struct InventoryResponseMeters {
    pub sn: String,
    pub manufacturer: String,
    pub model: String,
}

impl InventoryResponseMeters {
    pub fn new(sn: String, manufacturer: String, model: String) -> (r: InventoryResponseMeters)
        ensures
            r.sn == sn,
            r.manufacturer == manufacturer,
            r.model == model,
    {
        InventoryResponseMeters { sn, manufacturer, model }
    }
}

/// An error that the service reports for an unknown resource.
#[derive(Clone, Debug, PartialEq)]
pub struct NotFoundError {
    pub reason: String,
    pub error_messages: Vec<String>,
}

impl NotFoundError {
    pub fn new(reason: String, error_messages: Vec<String>) -> (r: NotFoundError)
        ensures
            r.reason == reason,
            r.error_messages == error_messages,
    {
        NotFoundError { reason, error_messages }
    }
}

/// Unit of an energy figure.
#[derive(Clone, Copy, Debug, PartialEq, Eq, Structural)]
pub enum Units {
    Wh,
    KJ,
}

/// The lifetime energy of a microinverter; zero if it never produced.
#[derive(Clone, Copy, Debug, PartialEq, Eq, Structural)]
pub struct InvertersSummaryByEnvoyOrSiteResponseEnergy {
    pub value: i32,
    pub units: Units,
    pub precision: i32,
}

impl InvertersSummaryByEnvoyOrSiteResponseEnergy {
    pub fn new(value: i32, units: Units, precision: i32) -> (r: InvertersSummaryByEnvoyOrSiteResponseEnergy)
        ensures
            r == (InvertersSummaryByEnvoyOrSiteResponseEnergy { value, units, precision }),
    {
        InvertersSummaryByEnvoyOrSiteResponseEnergy { value, units, precision }
    }
}

/// One reading of a production meter.
#[derive(Clone, Debug, PartialEq)]
pub struct ProductionMeterReadingsResponseMeterReadings {
    /// Serial number of the meter.
    pub serial_number: String,
    /// The meter's odometer reading, in Watt-hours.
    pub value: i32,
    /// When the reading was taken, in seconds since the epoch.
    pub read_at: i64,
}

impl ProductionMeterReadingsResponseMeterReadings {
    pub fn new(serial_number: String, value: i32, read_at: i64) -> (r: ProductionMeterReadingsResponseMeterReadings)
        ensures
            r.serial_number == serial_number,
            r.value == value,
            r.read_at == read_at,
    {
        ProductionMeterReadingsResponseMeterReadings { serial_number, value, read_at }
    }
}

/// One interval of a revenue-grade meter.
#[derive(Clone, Copy, Debug, PartialEq, Eq, Structural)]
pub struct RgmStatsResponseIntervals1 {
    /// End of the interval, in seconds since the epoch.
    pub end_at: i64,
    /// Energy delivered during the interval, in Watt-hours.
    pub wh_del: i64,
}

/// The intervals that one revenue-grade meter reported.
#[derive(Clone, Debug, PartialEq)]
pub struct RgmStatsResponseMeterIntervals {
    /// Serial number of the meter.
    pub meter_serial_number: String,
    /// Serial number of the gateway that reported it.
    pub envoy_serial_number: String,
    pub intervals: Vec<RgmStatsResponseIntervals1>,
}

impl RgmStatsResponseMeterIntervals {
    pub fn new(
        meter_serial_number: String,
        envoy_serial_number: String,
        intervals: Vec<RgmStatsResponseIntervals1>,
    ) -> (r: RgmStatsResponseMeterIntervals)
        ensures
            r.meter_serial_number == meter_serial_number,
            r.envoy_serial_number == envoy_serial_number,
            r.intervals == intervals,
    {
        RgmStatsResponseMeterIntervals { meter_serial_number, envoy_serial_number, intervals }
    }
}

} // verus!
