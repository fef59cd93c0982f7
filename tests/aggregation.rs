use home_energy_tools::common::{EnergyProduced, Error, NetEnergyUsed, Source, WattHours, MAX_HOURLY_WH};
use home_energy_tools::data_aggregator::{DataLoader, IntervalEnergy};
use home_energy_tools::hourly::{disagreement, summarize_hourly_energy, Category, HourlyData, SourceEnergy};
use home_energy_tools::time::Timestamp;

// 2021-11-06T10:00:00Z
const T_10: i64 = 1_636_192_800;

fn ts(secs: i64) -> Timestamp {
    Timestamp::new(secs, 0).unwrap()
}

fn produced(secs: i64, wh: i64) -> Result<EnergyProduced, String> {
    Ok(EnergyProduced { datetime_utc: ts(secs), local_offset_secs: 0, energy_wh: WattHours::from_wh(wh) })
}

fn used(secs: i64, wh: i64) -> Result<NetEnergyUsed, String> {
    Ok(NetEnergyUsed { timestamp_start_utc: ts(secs), net_used_wh: WattHours::from_wh(wh) })
}

fn collect_hours(aggr: &DataLoader) -> Vec<IntervalEnergy> {
    let mut it = aggr.hours();
    let mut out = Vec::new();
    while let Some(iv) = it.next() {
        out.push(iv);
    }
    out
}

fn collect_days(aggr: &DataLoader) -> Vec<IntervalEnergy> {
    let mut it = aggr.days();
    let mut out = Vec::new();
    while let Some(iv) = it.next() {
        out.push(iv);
    }
    out
}

#[test]
fn new_loader_is_empty() {
    let aggr = DataLoader::new();
    assert_eq!(aggr.nwarnings(), 0);
    assert_eq!(aggr.nprodsources(), 0);
    assert_eq!(aggr.nusagesources(), 0);
    assert_eq!(aggr.nhours(), 0);
    assert!(aggr.hours().next().is_none());
    assert!(aggr.months().next().is_none());
}

#[test]
fn identical_sources_merge_as_duplicates() {
    let mut aggr = DataLoader::new();
    aggr.load_production(Source::new("a.csv"), vec![produced(T_10, 500)]).unwrap();
    let before = collect_hours(&aggr);
    aggr.load_production(Source::new("b.csv"), vec![produced(T_10 + 60, 500)]).unwrap();
    assert_eq!(aggr.nproddupsok(), 1);
    assert_eq!(aggr.nwarnings(), 0);
    assert!(aggr.ready_for_reports());
    assert_eq!(aggr.nprodsources(), 2);
    let after = collect_hours(&aggr);
    assert_eq!(before, after);
    assert_eq!(after.len(), 1);
    assert_eq!(after[0].produced.as_wh(), 500);
}

#[test]
fn identical_net_usage_merges_as_duplicate() {
    let mut aggr = DataLoader::new();
    aggr.load_net_usage(Source::new("u1.csv"), vec![used(T_10, -300)]).unwrap();
    aggr.load_net_usage(Source::new("u2.csv"), vec![used(T_10, -300)]).unwrap();
    assert_eq!(aggr.nusagedupsok(), 1);
    assert_eq!(aggr.nusagesources(), 2);
    assert_eq!(aggr.nusagerecords(), 2);
    let hours = collect_hours(&aggr);
    assert_eq!(hours[0].net_used.as_wh(), -300);
}

#[test]
fn conflicting_sources_zero_the_hour_and_warn() {
    let mut aggr = DataLoader::new();
    aggr.load_production(Source::new("a.csv"), vec![produced(T_10, 100), produced(T_10 + 3600, 200)]).unwrap();
    aggr.load_net_usage(Source::new("u.csv"), vec![used(T_10, 50)]).unwrap();
    aggr.load_production(Source::new("b.csv"), vec![produced(T_10, 999)]).unwrap();
    assert_eq!(aggr.nwarnings(), 1);
    assert!(!aggr.ready_for_reports());
    assert_eq!(aggr.nprodconflicts(), 1);
    assert_eq!(aggr.nproddupsok(), 0);
    let hours = collect_hours(&aggr);
    assert_eq!(hours.len(), 2);
    assert_eq!(hours[0].interval_start, T_10);
    assert_eq!(hours[0].produced.as_wh(), 0);
    assert_eq!(hours[0].net_used.as_wh(), 0);
    assert_eq!(hours[0].consumed.as_wh(), 0);
    assert_eq!(hours[1].produced.as_wh(), 200);
}

#[test]
fn loading_a_source_twice_fails() {
    let mut aggr = DataLoader::new();
    aggr.load_production(Source::new("a.csv"), vec![produced(T_10, 100)]).unwrap();
    let second = aggr.load_production(Source::new("a.csv"), vec![]);
    assert!(matches!(second, Err(Error::DuplicateSource(_))));
    let third = aggr.load_net_usage(Source::new("a.csv"), vec![used(T_10, 1)]);
    assert!(matches!(third, Err(Error::DuplicateSource(_))));
    assert_eq!(aggr.nprodsources(), 1);
    assert_eq!(aggr.nusagesources(), 0);
    assert_eq!(aggr.nprodrecords(), 1);
}

#[test]
fn readings_within_an_hour_share_a_bucket() {
    let mut aggr = DataLoader::new();
    let start = Timestamp::new(T_10, 0).unwrap();
    let end = Timestamp::new(T_10 + 3599, 999_999_999).unwrap();
    let records = vec![
        Ok(EnergyProduced { datetime_utc: start, local_offset_secs: 0, energy_wh: WattHours::from_wh(10) }),
        Ok(EnergyProduced { datetime_utc: end, local_offset_secs: 0, energy_wh: WattHours::from_wh(20) }),
    ];
    aggr.load_production(Source::new("five-minute.csv"), records).unwrap();
    assert_eq!(aggr.nhours(), 1);
    assert_eq!(aggr.hour_at(0).hour, T_10);
    assert_eq!(aggr.nprodrecords(), 2);
    assert_eq!(aggr.category_counts(Category::Production).summed, 1);
    let hours = collect_hours(&aggr);
    assert_eq!(hours[0].produced.as_wh(), 30);
}

#[test]
fn hourly_and_daily_totals() {
    let mut aggr = DataLoader::new();
    aggr.load_production(Source::new("a.csv"), vec![produced(T_10, 100), produced(T_10 + 3600, 200)]).unwrap();
    let hours = collect_hours(&aggr);
    assert_eq!(hours.len(), 2);
    assert_eq!(hours[0].interval_start, T_10);
    assert_eq!(hours[0].produced.as_wh(), 100);
    assert_eq!(hours[1].interval_start, T_10 + 3600);
    assert_eq!(hours[1].produced.as_wh(), 200);
    let days = collect_days(&aggr);
    assert_eq!(days.len(), 1);
    assert_eq!(days[0].produced.as_wh(), 300);
    assert_eq!(days[0].interval_start % 86400, 0);
}

#[test]
fn consumed_is_produced_plus_net_used() {
    let mut aggr = DataLoader::new();
    aggr.load_production(Source::new("p.csv"), vec![produced(T_10, 1500)]).unwrap();
    aggr.load_net_usage(Source::new("u.csv"), vec![used(T_10, -400)]).unwrap();
    let hours = collect_hours(&aggr);
    assert_eq!(hours[0].produced.as_wh(), 1500);
    assert_eq!(hours[0].net_used.as_wh(), -400);
    assert_eq!(hours[0].consumed.as_wh(), 1100);
}

#[test]
fn repeated_local_hour_keeps_two_buckets() {
    // 2021-11-07 01:00 in the US Pacific zone occurs at 08:00Z and at 09:00Z.
    let first = 1_636_272_000;
    let second = first + 3600;
    let mut aggr = DataLoader::new();
    aggr.load_net_usage(Source::new("pge.csv"), vec![used(first, 700), used(second, 800)]).unwrap();
    assert_eq!(aggr.nhours(), 2);
    assert_eq!(aggr.hour_at(0).hour, first);
    assert_eq!(aggr.hour_at(1).hour, second);
    let hours = collect_hours(&aggr);
    assert_eq!(hours[0].net_used.as_wh(), 700);
    assert_eq!(hours[1].net_used.as_wh(), 800);
}

#[test]
fn unreadable_and_oversized_records_are_warnings() {
    let mut aggr = DataLoader::new();
    let records = vec![
        produced(T_10, 5),
        Err(String::from("bad record")),
        produced(T_10 + 3600, MAX_HOURLY_WH + 1),
        produced(T_10, MAX_HOURLY_WH),
    ];
    aggr.load_production(Source::new("a.csv"), records).unwrap();
    assert_eq!(aggr.nwarnings(), 3);
    assert_eq!(aggr.nprodrecords(), 1);
    assert_eq!(aggr.nhours(), 1);
    let hours = collect_hours(&aggr);
    assert_eq!(hours[0].produced.as_wh(), 5);
}

#[test]
fn months_split_at_month_boundaries() {
    // 2021-11-15T12:00Z and 2021-12-15T12:00Z, and 2022-06-15T12:00Z.
    let nov = 1_636_977_600;
    let dec = 1_639_569_600;
    let jun = 1_655_294_400;
    let mut aggr = DataLoader::new();
    aggr.load_production(Source::new("a.csv"), vec![produced(nov, 1), produced(nov + 3600, 2), produced(dec, 4), produced(jun, 8)]).unwrap();
    let mut months = aggr.months();
    let mut totals = Vec::new();
    while let Some(iv) = months.next() {
        totals.push(iv.produced.as_wh());
    }
    assert_eq!(totals, vec![3, 4, 8]);
    let mut years = aggr.years();
    let mut totals = Vec::new();
    while let Some(iv) = years.next() {
        totals.push(iv.produced.as_wh());
    }
    assert_eq!(totals, vec![7, 8]);
}

#[test]
fn summarize_resolves_each_category() {
    let agree = HourlyData {
        hour: T_10,
        production: vec![
            SourceEnergy { source: 0, energy: WattHours::from_wh(7) },
            SourceEnergy { source: 1, energy: WattHours::from_wh(7) },
        ],
        net_usage: vec![],
    };
    assert_eq!(summarize_hourly_energy(&agree), Some((WattHours::from_wh(7), WattHours::from_wh(0))));
    let disagree = HourlyData {
        hour: T_10,
        production: vec![SourceEnergy { source: 0, energy: WattHours::from_wh(7) }],
        net_usage: vec![
            SourceEnergy { source: 1, energy: WattHours::from_wh(3) },
            SourceEnergy { source: 2, energy: WattHours::from_wh(4) },
        ],
    };
    assert_eq!(summarize_hourly_energy(&disagree), None);
}

#[test]
fn disagreement_names_both_sources() {
    let mut aggr = DataLoader::new();
    aggr.load_production(Source::new("a.csv"), vec![produced(T_10, 100)]).unwrap();
    aggr.load_production(Source::new("b.csv"), vec![produced(T_10, 100)]).unwrap();
    aggr.load_production(Source::new("c.csv"), vec![produced(T_10, 250)]).unwrap();
    assert_eq!(aggr.nproddupsok(), 1);
    assert_eq!(aggr.nprodconflicts(), 1);
    assert_eq!(aggr.nsources(), 3);
    let hourly = aggr.hour_at(0);
    let (a, b) = disagreement(hourly.entries_of(Category::Production)).unwrap();
    assert_eq!(aggr.source_label(a.source), "a.csv");
    assert_eq!(a.energy.as_wh(), 100);
    assert_eq!(aggr.source_label(b.source), "c.csv");
    assert_eq!(b.energy.as_wh(), 250);
    assert_eq!(disagreement(hourly.entries_of(Category::NetUsage)), None);
}
