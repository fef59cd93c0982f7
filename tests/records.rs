use home_energy_tools::common::{Energy, EnergyProduced, Error, NetEnergyUsed, Source, WattHours};
use home_energy_tools::enphase::{produced_from_interval, SERVICE_INTERVAL_SECS};
use home_energy_tools::models::{
    ClientError, InventoryResponseMeters, InvertersSummaryByEnvoyOrSiteResponseEnergy, NotFoundError,
    ProductionMeterReadingsResponseMeterReadings, RgmStatsResponseIntervals1, RgmStatsResponseMeterIntervals, Units,
};
use home_energy_tools::pge::{is_data_file_name, net_energy_from_record, usage_from_utc_start, EXPECTED_RECORD_INTERVAL};
use home_energy_tools::time::{bucket_at_offset, hour_bucket, hour_key, Granularity, Timestamp, MAX_ABS_SECS};

#[test]
fn watt_hours_arithmetic() {
    let mut w = WattHours::from(1500i32);
    assert_eq!(w.as_wh(), 1500);
    w.add_assign(WattHours::from_wh(250));
    assert_eq!(w.as_wh(), 1750);
    w.sub_assign(WattHours::from_wh(2000));
    assert_eq!(w.as_wh(), -250);
}

#[test]
fn energy_from_either_reading() {
    let t = Timestamp::new(3600, 5).unwrap();
    let p = EnergyProduced { datetime_utc: t, local_offset_secs: -28800, energy_wh: WattHours::from_wh(9) };
    assert_eq!(Energy::from(p), Energy { datetime: t, energy_wh: WattHours::from_wh(9) });
    let u = NetEnergyUsed { timestamp_start_utc: t, net_used_wh: WattHours::from_wh(-2) };
    assert_eq!(Energy::from(u), Energy { datetime: t, energy_wh: WattHours::from_wh(-2) });
}

#[test]
fn source_labels() {
    let a = Source::new("a.csv");
    assert_eq!(a.label(), "a.csv");
    assert!(a.same_as(&Source::new("a.csv")));
    assert!(!a.same_as(&Source::new("b.csv")));
}

#[test]
fn timestamps_out_of_range_are_refused() {
    assert!(Timestamp::new(MAX_ABS_SECS, 0).is_some());
    assert!(Timestamp::new(MAX_ABS_SECS + 1, 0).is_none());
    assert!(Timestamp::new(0, 2_000_000_000).is_none());
}

#[test]
fn hour_keys_truncate() {
    // 2021-11-06T10:00:00Z
    let h = 1_636_192_800;
    assert_eq!(hour_key(&Timestamp::new(h, 0).unwrap()), h);
    assert_eq!(hour_key(&Timestamp::new(h + 3599, 999_999_999).unwrap()), h);
    assert_eq!(hour_key(&Timestamp::new(h + 3600, 0).unwrap()), h + 3600);
    assert_eq!(hour_key(&Timestamp::new(-1, 0).unwrap()), -3600);
}

#[test]
fn hour_buckets() {
    let h = 1_636_192_800;
    assert_eq!(hour_bucket(Granularity::Hour, h), h);
    let day = hour_bucket(Granularity::Day, h);
    assert_eq!(day % 86400, 0);
    assert!((day - h).abs() < 2 * 86400);
    let month = hour_bucket(Granularity::Month, h);
    assert!(month <= h + 86400 && h - month < 32 * 86400);
    assert_eq!(month % 86400, 0);
    let year = hour_bucket(Granularity::Year, h);
    assert!(year <= month);
}

#[test]
fn data_file_names() {
    assert!(is_data_file_name("pge_electric_interval_data_2021.csv"));
    assert!(!is_data_file_name("pge_electric_interval_data_2021.txt"));
    assert!(!is_data_file_name("notes.csv"));
}

#[test]
fn usage_record_must_span_the_hour() {
    let start = 1_636_192_800;
    let r = net_energy_from_record(start, start + 3600, WattHours::from_wh(1));
    assert!(matches!(r, Err(Error::UnexpectedInterval(a, b)) if a == start && b == start + 3600));
    let r = net_energy_from_record(MAX_ABS_SECS, MAX_ABS_SECS + EXPECTED_RECORD_INTERVAL, WattHours::from_wh(1));
    assert!(matches!(r, Err(Error::OutOfRange(t)) if t == MAX_ABS_SECS));
    let r = net_energy_from_record(start, start + EXPECTED_RECORD_INTERVAL, WattHours::from_wh(1200));
    let u = r.unwrap();
    assert_eq!(u.net_used_wh.as_wh(), 1200);
    assert!((u.timestamp_start_utc.secs - start).abs() < 86400);
}

#[test]
fn usage_record_start_instant() {
    let r = usage_from_utc_start(100, Some(7300), WattHours::from_wh(4)).unwrap();
    assert_eq!(r.timestamp_start_utc, Timestamp::new(7300, 0).unwrap());
    assert_eq!(r.net_used_wh.as_wh(), 4);
    let r = usage_from_utc_start(100, None, WattHours::from_wh(4));
    assert!(matches!(r, Err(Error::AmbiguousLocalTime(100))));
}

#[test]
fn service_records() {
    let e = ClientError::new(String::from("bad"), vec![String::from("m")]);
    assert_eq!(e.reason, "bad");
    assert_eq!(e.message, vec![String::from("m")]);
    let m = InventoryResponseMeters::new(String::from("1"), String::from("acme"), String::from("x"));
    assert_eq!(m.manufacturer, "acme");
    let n = NotFoundError::new(String::from("gone"), vec![]);
    assert!(n.error_messages.is_empty());
    let s = InvertersSummaryByEnvoyOrSiteResponseEnergy::new(10, Units::KJ, 2);
    assert_eq!(s.units, Units::KJ);
    assert_eq!(s.value, 10);
    let r = ProductionMeterReadingsResponseMeterReadings::new(String::from("sn"), 42, 1000);
    assert_eq!(r.read_at, 1000);
    let i = RgmStatsResponseMeterIntervals::new(
        String::from("m"),
        String::from("e"),
        vec![RgmStatsResponseIntervals1 { end_at: 900, wh_del: 12 }],
    );
    assert_eq!(i.intervals.len(), 1);
    assert_eq!(i.envoy_serial_number, "e");
}

#[test]
fn service_interval_becomes_reading() {
    let end = 1_636_193_100;
    let e = produced_from_interval(end, 42).unwrap();
    assert_eq!(e.datetime_utc, Timestamp::new(end - SERVICE_INTERVAL_SECS, 0).unwrap());
    assert_eq!(e.energy_wh.as_wh(), 42);
    assert!(e.local_offset_secs.abs() < 86400);
    let far = MAX_ABS_SECS + SERVICE_INTERVAL_SECS + 1;
    assert!(matches!(produced_from_interval(far, 1), Err(Error::OutOfRange(t)) if t == far));
}

#[test]
fn interval_keys_at_a_given_offset() {
    // 2021-11-06T10:00Z is 02:00 on 6 November at UTC-8.
    let h = 1_636_192_800;
    let pacific = -8 * 3600;
    assert_eq!(bucket_at_offset(Granularity::Hour, h, pacific), h);
    assert_eq!(bucket_at_offset(Granularity::Day, h, pacific), 1_636_156_800);
    assert_eq!(bucket_at_offset(Granularity::Month, h, pacific), 1_635_724_800);
    assert_eq!(bucket_at_offset(Granularity::Year, h, pacific), 1_609_459_200);
    // 2021-01-01T03:00Z is still 31 December 2020 at UTC-8.
    let ny = 1_609_470_000;
    assert_eq!(bucket_at_offset(Granularity::Day, ny, pacific), 1_609_372_800);
    assert_eq!(bucket_at_offset(Granularity::Month, ny, pacific), 1_606_780_800);
    assert_eq!(bucket_at_offset(Granularity::Year, ny, pacific), 1_577_836_800);
}
