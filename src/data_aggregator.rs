//! Merging readings from several named sources into the hourly store, with
//! disagreement between sources detected, and reports over the store.

use crate::common::{Energy, EnergyProduced, Error, NetEnergyUsed, Source, WattHours, MAX_HOURLY_WH};
use crate::hourly::{
    add_reading, bucket_wf, entries_at, entries_bounded, has_hour, lemma_bucket_of, lemma_entries_at,
    lemma_entries_at_wf, net_used_of, other, produced_of, resolve, resolve_entries, sorted_hours, store_wf,
    summarize_hourly_energy, summary, Category, HourlyData, SourceEnergy,
};
use crate::time::{hour_bucket, hour_key, hour_key_of, interval_key, Granularity, SECS_PER_DAY};
use vstd::arithmetic::div_mod::lemma_fundamental_div_mod;
use vstd::prelude::*;

verus! {

/// What one source's readings come to, read in order: its hourly totals by
/// hour key, and how many readings were accepted, refused (malformed or out
/// of bounds) and added to a total that the source already had for the hour.
pub struct Tally {
    pub totals: Map<int, int>,
    pub records: nat,
    pub warnings: nat,
    pub summed: nat,
}

/// One reading's effect on a tally; `None` stands for a malformed record.
pub open spec fn tally_step(t: Tally, r: Option<Energy>) -> Tally {
    match r {
        None => Tally { totals: t.totals, records: t.records, warnings: t.warnings + 1, summed: t.summed },
        Some(e) => {
            let h = hour_key_of(e.datetime);
            let known = t.totals.contains_key(h);
            let cur = if known { t.totals[h] } else { 0 };
            let next = cur + e.energy_wh.wh();
            if e.datetime.wf() && -MAX_HOURLY_WH <= next <= MAX_HOURLY_WH {
                Tally {
                    totals: t.totals.insert(h, next),
                    records: t.records + 1,
                    warnings: t.warnings,
                    summed: if known { t.summed + 1 } else { t.summed },
                }
            } else {
                Tally { totals: t.totals, records: t.records, warnings: t.warnings + 1, summed: t.summed }
            }
        },
    }
}

/// The tally of a sequence of readings.
pub open spec fn tally(rs: Seq<Option<Energy>>) -> Tally
    decreases rs.len(),
{
    if rs.len() == 0 {
        Tally { totals: Map::empty(), records: 0, warnings: 0, summed: 0 }
    } else {
        tally_step(tally(rs.drop_last()), rs.last())
    }
}

/// The entry that a newly loaded source `idx` holds for hour `h`, if any.
pub open spec fn own_entry(t: Tally, h: int, idx: nat) -> Seq<SourceEnergy> {
    if t.totals.contains_key(h) {
        seq![SourceEnergy { source: idx as usize, energy: WattHours(t.totals[h] as i64) }]
    } else {
        Seq::empty()
    }
}

/// The bucket holds at least two sources in category `c`, the newest being
/// `idx`, and they all agree.
pub open spec fn newest_agrees(b: HourlyData, c: Category, idx: nat) -> bool {
    let e = b.entries(c);
    e.len() >= 2 && e.last().source == idx && resolve(e) is Some
}

/// The bucket holds at least two sources in category `c`, the newest being
/// `idx`, and two of them disagree.
pub open spec fn newest_conflicts(b: HourlyData, c: Category, idx: nat) -> bool {
    let e = b.entries(c);
    e.len() >= 2 && e.last().source == idx && resolve(e) is None
}

/// Number of buckets in which source `idx` agrees with the sources before it.
pub open spec fn count_agreeing(s: Seq<HourlyData>, c: Category, idx: nat) -> nat
    decreases s.len(),
{
    if s.len() == 0 {
        0
    } else {
        count_agreeing(s.drop_last(), c, idx) + if newest_agrees(s.last(), c, idx) { 1nat } else { 0nat }
    }
}

/// Number of buckets in which source `idx` disagrees with a source before it.
pub open spec fn count_conflicting(s: Seq<HourlyData>, c: Category, idx: nat) -> nat
    decreases s.len(),
{
    if s.len() == 0 {
        0
    } else {
        count_conflicting(s.drop_last(), c, idx) + if newest_conflicts(s.last(), c, idx) { 1nat } else { 0nat }
    }
}

/// `x` as a counter that sticks at its largest value.
pub open spec fn sat(x: int) -> usize {
    if x > usize::MAX {
        usize::MAX
    } else {
        x as usize
    }
}

/// The audit counters of one category.
#[derive(Clone, Copy, Debug, PartialEq, Eq, Structural)]
pub struct CategoryCounts {
    /// Sources loaded.
    pub sources: usize,
    /// Readings accepted.
    pub records: usize,
    /// Hours in which a source agreed with the sources loaded before it.
    pub dups_ok: usize,
    /// Hours in which a source disagreed with a source loaded before it.
    pub conflicts: usize,
    /// Readings added to a total that their own source already had for the
    /// hour (readings finer than one hour).
    pub summed: usize,
}

impl CategoryCounts {
    fn zero() -> (r: CategoryCounts)
        ensures
            r == (CategoryCounts { sources: 0, records: 0, dups_ok: 0, conflicts: 0, summed: 0 }),
    {
        CategoryCounts { sources: 0, records: 0, dups_ok: 0, conflicts: 0, summed: 0 }
    }
}

/// Merges readings from many sources into one record per UTC hour, and keeps
/// count of what it saw.
pub struct DataLoader {
    sources: Vec<Source>,
    hourly_data: Vec<HourlyData>,
    nwarnings: usize,
    production: CategoryCounts,
    net_usage: CategoryCounts,
}

impl DataLoader {
    /// Labels of the sources loaded so far, in order.
    pub closed spec fn labels(&self) -> Seq<Seq<char>> {
        self.sources@.map_values(|s: Source| s@)
    }

    /// The buckets, ordered by hour.
    pub closed spec fn buckets(&self) -> Seq<HourlyData> {
        self.hourly_data@
    }

    /// Warnings so far: malformed readings and conflicts between sources.
    pub closed spec fn warnings(&self) -> usize {
        self.nwarnings
    }

    /// The counters of one category.
    pub closed spec fn counts(&self, c: Category) -> CategoryCounts {
        match c {
            Category::Production => self.production,
            Category::NetUsage => self.net_usage,
        }
    }

    /// The loader's invariant.
    pub closed spec fn wf(&self) -> bool {
        store_wf(self.hourly_data@, self.sources@.len())
    }

    pub fn new() -> (r: DataLoader)
        ensures
            r.wf(),
            r.labels() == Seq::<Seq<char>>::empty(),
            r.buckets() == Seq::<HourlyData>::empty(),
            r.warnings() == 0,
            r.counts(Category::Production) == (CategoryCounts { sources: 0, records: 0, dups_ok: 0, conflicts: 0, summed: 0 }),
            r.counts(Category::NetUsage) == (CategoryCounts { sources: 0, records: 0, dups_ok: 0, conflicts: 0, summed: 0 }),
    {
        let r = DataLoader {
            sources: Vec::new(),
            hourly_data: Vec::new(),
            nwarnings: 0,
            production: CategoryCounts::zero(),
            net_usage: CategoryCounts::zero(),
        };
        assert(r.labels() =~= Seq::<Seq<char>>::empty());
        r
    }
}


/// What loading the readings `rs` of a source labelled `label` into category
/// `c` does to a loader, where `ok` says whether the load succeeded.
///
/// A label that was loaded before is refused and nothing changes.  Otherwise
/// the source is registered under the next index; each accepted reading is
/// added to the source's total for the reading's hour; every hour the source
/// reported gets its entry, after those of earlier sources; and each hour in
/// which it agrees with earlier sources counts as a duplicate, each hour in
/// which it disagrees as a conflict and a warning.
pub open spec fn load_post(
    before: DataLoader,
    c: Category,
    label: Seq<char>,
    rs: Seq<Option<Energy>>,
    after: DataLoader,
    ok: bool,
) -> bool {
    if before.labels().contains(label) {
        !ok && after == before
    } else {
        let idx = before.labels().len();
        let t = tally(rs);
        let s0 = before.buckets();
        let s1 = after.buckets();
        let k0 = before.counts(c);
        let k1 = after.counts(c);
        &&& ok
        &&& idx <= usize::MAX
        &&& after.wf()
        &&& store_wf(s1, after.labels().len())
        &&& after.labels() == before.labels().push(label)
        &&& forall|h: int| #[trigger] has_hour(s1, h) == (has_hour(s0, h) || t.totals.contains_key(h))
        &&& forall|h: int| #[trigger] entries_at(s1, h, c) == entries_at(s0, h, c) + own_entry(t, h, idx)
        &&& forall|h: int| #[trigger] entries_at(s1, h, other(c)) == entries_at(s0, h, other(c))
        &&& after.counts(other(c)) == before.counts(other(c))
        &&& k1.sources == sat(k0.sources + 1)
        &&& k1.records == sat(k0.records + t.records)
        &&& k1.summed == sat(k0.summed + t.summed)
        &&& k1.dups_ok == sat(k0.dups_ok + count_agreeing(s1, c, idx))
        &&& k1.conflicts == sat(k0.conflicts + count_conflicting(s1, c, idx))
        &&& after.warnings() == sat(before.warnings() + t.warnings + count_conflicting(s1, c, idx))
    }
}

proof fn lemma_tally_bounded(rs: Seq<Option<Energy>>)
    ensures
        forall|h: int| #[trigger] tally(rs).totals.contains_key(h)
            ==> -MAX_HOURLY_WH <= tally(rs).totals[h] <= MAX_HOURLY_WH,
    decreases rs.len(),
{
    if rs.len() > 0 {
        lemma_tally_bounded(rs.drop_last());
        let t0 = tally(rs.drop_last());
        assert(tally(rs) == tally_step(t0, rs.last()));
        assert forall|h: int| #[trigger] tally(rs).totals.contains_key(h)
            implies -MAX_HOURLY_WH <= tally(rs).totals[h] <= MAX_HOURLY_WH by {
            assert(t0.totals.contains_key(h) ==> -MAX_HOURLY_WH <= t0.totals[h] <= MAX_HOURLY_WH);
        }
    }
}

impl DataLoader {
    fn counts_of(&self, c: Category) -> (r: CategoryCounts)
        ensures
            r == self.counts(c),
    {
        match c {
            Category::Production => self.production,
            Category::NetUsage => self.net_usage,
        }
    }

    fn set_counts(&mut self, c: Category, k: CategoryCounts)
        ensures
            final(self).counts(c) == k,
            final(self).counts(other(c)) == old(self).counts(other(c)),
            final(self).sources == old(self).sources,
            final(self).hourly_data == old(self).hourly_data,
            final(self).nwarnings == old(self).nwarnings,
    {
        match c {
            Category::Production => self.production = k,
            Category::NetUsage => self.net_usage = k,
        }
    }

    /// Whether a source with the label of `source` was loaded already.
    fn is_registered(&self, source: &Source) -> (r: bool)
        ensures
            r == self.labels().contains(source@),
    {
        let mut i: usize = 0;
        while i < self.sources.len()
            invariant
                i <= self.sources.len(),
                forall|j: int| 0 <= j < i ==> #[trigger] self.labels()[j] != source@,
            decreases self.sources.len() - i,
        {
            if self.sources[i].same_as(source) {
                assert(self.labels()[i as int] == source@);
                return true;
            }
            i = i + 1;
        }
        false
    }

    /// Loads one source's readings into category `c`; `None` stands for a
    /// record that could not be read.
    fn load(&mut self, c: Category, source: Source, readings: &Vec<Option<Energy>>) -> (r: Result<(), Error>)
        requires
            old(self).wf(),
        ensures
            load_post(*old(self), c, source@, readings@, *final(self), r is Ok),
            r is Err ==> r->Err_0 is DuplicateSource,
    {
        if self.is_registered(&source) {
            return Err(Error::DuplicateSource(source));
        }
        let ghost label = source@;
        let ghost s0 = self.hourly_data@;
        let ghost k0 = self.counts(c);
        let ghost w0 = self.nwarnings;
        let idx = self.sources.len();
        self.sources.push(source);
        assert(self.labels() =~= old(self).labels().push(label));
        let mut counts = self.counts_of(c);
        counts.sources = counts.sources.saturating_add(1);
        let mut k: usize = 0;
        while k < readings.len()
            invariant
                k <= readings.len(),
                idx == old(self).sources.len(),
                self.sources@.len() == idx + 1,
                self.labels() == old(self).labels().push(label),
                store_wf(s0, idx as nat),
                store_wf(self.hourly_data@, idx as nat + 1),
                self.counts(c) == k0,
                self.counts(other(c)) == old(self).counts(other(c)),
                counts.sources == sat(k0.sources + 1),
                counts.dups_ok == k0.dups_ok,
                counts.conflicts == k0.conflicts,
                ({
                    let t = tally(readings@.take(k as int));
                    &&& forall|h: int| #[trigger] has_hour(self.hourly_data@, h) == (has_hour(s0, h) || t.totals.contains_key(h))
                    &&& forall|h: int| #[trigger] entries_at(self.hourly_data@, h, c) == entries_at(s0, h, c) + own_entry(t, h, idx as nat)
                    &&& forall|h: int| #[trigger] entries_at(self.hourly_data@, h, other(c)) == entries_at(s0, h, other(c))
                    &&& counts.records == sat(k0.records + t.records)
                    &&& counts.summed == sat(k0.summed + t.summed)
                    &&& self.nwarnings == sat(w0 + t.warnings)
                }),
            decreases readings.len() - k,
        {
            let ghost t = tally(readings@.take(k as int));
            proof {
                assert(readings@.take(k as int + 1).drop_last() =~= readings@.take(k as int));
                lemma_tally_bounded(readings@.take(k as int));
            }
            match readings[k] {
                None => {
                    self.nwarnings = self.nwarnings.saturating_add(1);
                },
                Some(e) => {
                    if !e.datetime.is_valid() {
                        self.nwarnings = self.nwarnings.saturating_add(1);
                    } else {
                        let h = hour_key(&e.datetime);
                        let ghost cur_s = self.hourly_data@;
                        proof {
                            lemma_entries_at_wf(s0, idx as nat, h as int, c);
                            let e0 = entries_at(s0, h as int, c);
                            let ec = entries_at(cur_s, h as int, c);
                            if e0.len() > 0 {
                                assert(e0.last().source < idx);
                            }
                            if t.totals.contains_key(h as int) {
                                assert(ec.last() == own_entry(t, h as int, idx as nat)[0]);
                                assert(ec.drop_last() =~= e0);
                            } else {
                                assert(ec =~= e0);
                            }
                        }
                        let (accepted, had) = add_reading(&mut self.hourly_data, c, idx, h, e.energy_wh.0);
                        if accepted {
                            counts.records = counts.records.saturating_add(1);
                            if had {
                                counts.summed = counts.summed.saturating_add(1);
                            }
                        } else {
                            self.nwarnings = self.nwarnings.saturating_add(1);
                        }
                        proof {
                            let t1 = tally(readings@.take(k as int + 1));
                            if accepted {
                                assert forall|g: int| #[trigger] entries_at(self.hourly_data@, g, c)
                                    == entries_at(s0, g, c) + own_entry(t1, g, idx as nat) by {
                                    if g == h {
                                        let e0 = entries_at(s0, h as int, c);
                                        assert(entries_at(self.hourly_data@, g, c) =~= e0 + own_entry(t1, g, idx as nat));
                                    } else {
                                        assert(own_entry(t1, g, idx as nat) == own_entry(t, g, idx as nat));
                                    }
                                }
                                assert forall|g: int| #[trigger] has_hour(self.hourly_data@, g)
                                    == (has_hour(s0, g) || t1.totals.contains_key(g)) by {
                                }
                                assert forall|g: int| #[trigger] entries_at(self.hourly_data@, g, other(c))
                                    == entries_at(s0, g, other(c)) by {
                                }
                            }
                        }
                    }
                },
            }
            k = k + 1;
        }
        proof {
            assert(readings@.take(readings@.len() as int) =~= readings@);
        }
        let ghost s1 = self.hourly_data@;
        let mut j: usize = 0;
        while j < self.hourly_data.len()
            invariant
                j <= s1.len(),
                self.hourly_data@ == s1,
                self.counts(other(c)) == old(self).counts(other(c)),
                self.counts(c) == k0,
                self.labels() == old(self).labels().push(label),
                store_wf(s1, idx as nat + 1),
                idx == old(self).sources.len(),
                counts.sources == sat(k0.sources + 1),
                counts.records == sat(k0.records + tally(readings@).records),
                counts.summed == sat(k0.summed + tally(readings@).summed),
                counts.dups_ok == sat(k0.dups_ok + count_agreeing(s1.take(j as int), c, idx as nat)),
                counts.conflicts == sat(k0.conflicts + count_conflicting(s1.take(j as int), c, idx as nat)),
                self.nwarnings == sat(w0 + tally(readings@).warnings + count_conflicting(s1.take(j as int), c, idx as nat)),
            decreases s1.len() - j,
        {
            proof {
                assert(s1.take(j as int + 1).drop_last() =~= s1.take(j as int));
                assert(s1.take(j as int + 1).last() == s1[j as int]);
            }
            let e = self.hourly_data[j].entries_of(c);
            let n = e.len();
            if n >= 2 && e[n - 1].source == idx {
                if resolve_entries(e).is_some() {
                    counts.dups_ok = counts.dups_ok.saturating_add(1);
                } else {
                    counts.conflicts = counts.conflicts.saturating_add(1);
                    self.nwarnings = self.nwarnings.saturating_add(1);
                }
            }
            j = j + 1;
        }
        proof {
            assert(s1.take(s1.len() as int) =~= s1);
        }
        self.set_counts(c, counts);
        Ok(())
    }
}


/// The readings of a production file; an `Err` is a record that could not be
/// read.
pub open spec fn produced_readings(rs: Seq<Result<EnergyProduced, String>>) -> Seq<Option<Energy>> {
    rs.map_values(|r: Result<EnergyProduced, String>| match r {
        Ok(e) => Some(Energy { datetime: e.datetime_utc, energy_wh: e.energy_wh }),
        Err(_) => None,
    })
}

/// The readings of a net-usage file; an `Err` is a record that could not be
/// read.
pub open spec fn used_readings(rs: Seq<Result<NetEnergyUsed, String>>) -> Seq<Option<Energy>> {
    rs.map_values(|r: Result<NetEnergyUsed, String>| match r {
        Ok(u) => Some(Energy { datetime: u.timestamp_start_utc, energy_wh: u.net_used_wh }),
        Err(_) => None,
    })
}

impl DataLoader {
    /// Loads the production readings of one source.  Fails, changing
    /// nothing, where a source with the same label was loaded before.
    pub fn load_production(&mut self, source: Source, records: Vec<Result<EnergyProduced, String>>) -> (r: Result<(), Error>)
        requires
            old(self).wf(),
        ensures
            load_post(*old(self), Category::Production, source@, produced_readings(records@), *final(self), r is Ok),
            r is Err ==> r->Err_0 is DuplicateSource,
    {
        let mut readings: Vec<Option<Energy>> = Vec::new();
        let mut i: usize = 0;
        while i < records.len()
            invariant
                i <= records.len(),
                readings@ =~= produced_readings(records@.take(i as int)),
            decreases records.len() - i,
        {
            let reading = match &records[i] {
                Ok(e) => Some(Energy::from(*e)),
                Err(_) => None,
            };
            readings.push(reading);
            i = i + 1;
            assert(readings@ =~= produced_readings(records@.take(i as int)));
        }
        assert(records@.take(records@.len() as int) =~= records@);
        self.load(Category::Production, source, &readings)
    }

    /// Loads the net-usage readings of one source.  Fails, changing nothing,
    /// where a source with the same label was loaded before.
    pub fn load_net_usage(&mut self, source: Source, records: Vec<Result<NetEnergyUsed, String>>) -> (r: Result<(), Error>)
        requires
            old(self).wf(),
        ensures
            load_post(*old(self), Category::NetUsage, source@, used_readings(records@), *final(self), r is Ok),
            r is Err ==> r->Err_0 is DuplicateSource,
    {
        let mut readings: Vec<Option<Energy>> = Vec::new();
        let mut i: usize = 0;
        while i < records.len()
            invariant
                i <= records.len(),
                readings@ =~= used_readings(records@.take(i as int)),
            decreases records.len() - i,
        {
            let reading = match &records[i] {
                Ok(u) => Some(Energy::from(*u)),
                Err(_) => None,
            };
            readings.push(reading);
            i = i + 1;
            assert(readings@ =~= used_readings(records@.take(i as int)));
        }
        assert(records@.take(records@.len() as int) =~= records@);
        self.load(Category::NetUsage, source, &readings)
    }

    /// Warnings so far: unreadable or out-of-bounds readings, and hours in
    /// which a source disagreed with one loaded before it.
    pub fn nwarnings(&self) -> (r: usize)
        ensures
            r == self.warnings(),
    {
        self.nwarnings
    }

    /// Production sources loaded.
    pub fn nprodsources(&self) -> (r: usize)
        ensures
            r == self.counts(Category::Production).sources,
    {
        self.production.sources
    }

    /// Production readings accepted.
    pub fn nprodrecords(&self) -> (r: usize)
        ensures
            r == self.counts(Category::Production).records,
    {
        self.production.records
    }

    /// Hours in which a production source agreed with those loaded before it.
    pub fn nproddupsok(&self) -> (r: usize)
        ensures
            r == self.counts(Category::Production).dups_ok,
    {
        self.production.dups_ok
    }

    /// Hours in which a production source disagreed with one loaded before it.
    pub fn nprodconflicts(&self) -> (r: usize)
        ensures
            r == self.counts(Category::Production).conflicts,
    {
        self.production.conflicts
    }

    /// Net-usage sources loaded.
    pub fn nusagesources(&self) -> (r: usize)
        ensures
            r == self.counts(Category::NetUsage).sources,
    {
        self.net_usage.sources
    }

    /// Net-usage readings accepted.
    pub fn nusagerecords(&self) -> (r: usize)
        ensures
            r == self.counts(Category::NetUsage).records,
    {
        self.net_usage.records
    }

    /// Hours in which a net-usage source agreed with those loaded before it.
    pub fn nusagedupsok(&self) -> (r: usize)
        ensures
            r == self.counts(Category::NetUsage).dups_ok,
    {
        self.net_usage.dups_ok
    }

    /// Hours in which a net-usage source disagreed with one loaded before it.
    pub fn nusageconflicts(&self) -> (r: usize)
        ensures
            r == self.counts(Category::NetUsage).conflicts,
    {
        self.net_usage.conflicts
    }

    /// The counters of one category.
    pub fn category_counts(&self, c: Category) -> (r: CategoryCounts)
        ensures
            r == self.counts(c),
    {
        self.counts_of(c)
    }

    /// Number of hours that hold any reading.
    pub fn nhours(&self) -> (r: usize)
        ensures
            r == self.buckets().len(),
    {
        self.hourly_data.len()
    }

    /// The bucket at position `i` in hour order.
    pub fn hour_at(&self, i: usize) -> (r: &HourlyData)
        requires
            i < self.buckets().len(),
        ensures
            *r == self.buckets()[i as int],
    {
        &self.hourly_data[i]
    }
}


/// Production over the buckets at positions `lo` to `hi` (exclusive).
pub open spec fn produced_between(s: Seq<HourlyData>, lo: int, hi: int) -> int
    decreases hi - lo,
{
    if hi <= lo {
        0
    } else {
        produced_between(s, lo, hi - 1) + produced_of(s[hi - 1])
    }
}

/// Net usage over the buckets at positions `lo` to `hi` (exclusive).
pub open spec fn net_used_between(s: Seq<HourlyData>, lo: int, hi: int) -> int
    decreases hi - lo,
{
    if hi <= lo {
        0
    } else {
        net_used_between(s, lo, hi - 1) + net_used_of(s[hi - 1])
    }
}

/// Whether `start` is the key of the report interval that holds hour `hour`
/// under some offset of a time zone.
pub open spec fn in_interval(g: Granularity, hour: int, start: int) -> bool {
    exists|o: int| -SECS_PER_DAY < o < SECS_PER_DAY && #[trigger] interval_key(g, hour, o) == start
}

proof fn lemma_resolve_bounded(e: Seq<SourceEnergy>)
    requires
        entries_bounded(e),
    ensures
        resolve(e) matches Some(v) ==> -MAX_HOURLY_WH <= v <= MAX_HOURLY_WH,
{
    if e.len() > 0 {
        assert(-MAX_HOURLY_WH <= e[0].energy.wh() <= MAX_HOURLY_WH);
    }
}

proof fn lemma_bucket_bounded(b: HourlyData, n: nat)
    requires
        bucket_wf(b, n),
    ensures
        -MAX_HOURLY_WH <= produced_of(b) <= MAX_HOURLY_WH,
        -MAX_HOURLY_WH <= net_used_of(b) <= MAX_HOURLY_WH,
{
    lemma_resolve_bounded(b.production@);
    lemma_resolve_bounded(b.net_usage@);
}

/// Buckets `j - lo` places apart are at least that many hours apart.
proof fn lemma_span(s: Seq<HourlyData>, n: nat, lo: int, j: int)
    requires
        store_wf(s, n),
        0 <= lo <= j < s.len(),
    ensures
        s[j].hour - s[lo].hour >= 3600 * (j - lo),
    decreases j - lo,
{
    if j > lo {
        lemma_span(s, n, lo, j - 1);
        let a = s[j - 1].hour as int;
        let b = s[j].hour as int;
        assert(a < b);
        assert(bucket_wf(s[j - 1], n));
        assert(bucket_wf(s[j], n));
        lemma_fundamental_div_mod(a, 3600);
        lemma_fundamental_div_mod(b, 3600);
        let qa = a / 3600;
        let qb = b / 3600;
        assert(qa < qb);
    }
}

/// The sums over any run of buckets stay well within 64 bits.
proof fn lemma_run_bounded(s: Seq<HourlyData>, n: nat, lo: int, hi: int)
    requires
        store_wf(s, n),
        0 <= lo < hi <= s.len(),
    ensures
        -4_500_000_000_000_000_000 <= produced_between(s, lo, hi) <= 4_500_000_000_000_000_000,
        -4_500_000_000_000_000_000 <= net_used_between(s, lo, hi) <= 4_500_000_000_000_000_000,
{
    lemma_run_sums(s, n, lo, hi);
    lemma_span(s, n, lo, hi - 1);
    assert(bucket_wf(s[hi - 1], n));
    assert(bucket_wf(s[lo], n));
}

proof fn lemma_run_sums(s: Seq<HourlyData>, n: nat, lo: int, hi: int)
    requires
        store_wf(s, n),
        0 <= lo <= hi <= s.len(),
    ensures
        -MAX_HOURLY_WH * (hi - lo) <= produced_between(s, lo, hi) <= MAX_HOURLY_WH * (hi - lo),
        -MAX_HOURLY_WH * (hi - lo) <= net_used_between(s, lo, hi) <= MAX_HOURLY_WH * (hi - lo),
    decreases hi - lo,
{
    if hi > lo {
        lemma_run_sums(s, n, lo, hi - 1);
        lemma_bucket_bounded(s[hi - 1], n);
    }
}

/// Energy over one report interval.
#[derive(Clone, Copy, Debug, PartialEq, Eq)]
pub struct IntervalEnergy {
    /// Start of the interval: the UTC hour for hourly intervals, otherwise
    /// local wall-clock time; in seconds since the epoch of that clock.
    pub interval_start: i64,
    pub produced: WattHours,
    pub net_used: WattHours,
    /// Energy consumed on site: produced plus net used.
    pub consumed: WattHours,
}

/// Walks the hourly store in order and sums consecutive hours that fall in the
/// same report interval.  Each call of `next` yields one interval; the walk
/// does not restart.
pub struct DataIterator<'a> {
    loader: &'a DataLoader,
    granularity: Granularity,
    pos: usize,
}

/// The iterator over calendar months.
pub type MonthIterator<'a> = DataIterator<'a>;

impl<'a> DataIterator<'a> {
    /// The buckets being walked.
    pub closed spec fn store(&self) -> Seq<HourlyData> {
        self.loader.buckets()
    }

    /// Position of the next bucket to be read.
    pub closed spec fn position(&self) -> int {
        self.pos as int
    }

    pub closed spec fn granularity(&self) -> Granularity {
        self.granularity
    }

    pub closed spec fn wf(&self) -> bool {
        self.loader.wf() && self.pos <= self.loader.buckets().len()
    }

    /// The next interval: `None` once every hour has been read.  Otherwise
    /// the interval covers the run of unread hours that starts at the current
    /// position and shares that hour's interval key; its totals are the sums
    /// over that run, hours whose sources disagree counting as zero.
    pub fn next(&mut self) -> (r: Option<IntervalEnergy>)
        requires
            old(self).wf(),
        ensures
            final(self).wf(),
            final(self).store() == old(self).store(),
            final(self).granularity() == old(self).granularity(),
            ({
                let s = old(self).store();
                let g = old(self).granularity();
                let first = old(self).position();
                let stop = final(self).position();
                if first == s.len() {
                    r is None && stop == first
                } else {
                    &&& r is Some
                    &&& first < stop <= s.len()
                    &&& r->0.produced.wh() == produced_between(s, first, stop)
                    &&& r->0.net_used.wh() == net_used_between(s, first, stop)
                    &&& r->0.consumed.wh() == r->0.produced.wh() + r->0.net_used.wh()
                    &&& forall|i: int| first <= i < stop ==> in_interval(g, #[trigger] s[i].hour as int, r->0.interval_start as int)
                    &&& stop < s.len() ==> exists|o: int| -SECS_PER_DAY < o < SECS_PER_DAY
                        && #[trigger] interval_key(g, s[stop].hour as int, o) != r->0.interval_start
                    &&& g == Granularity::Hour ==> stop == first + 1 && r->0.interval_start == s[first].hour
                }
            }),
    {
        let s = &self.loader.hourly_data;
        let n = s.len();
        if self.pos >= n {
            return None;
        }
        let g = self.granularity;
        let first = self.pos;
        let ghost nsrc = self.loader.sources@.len();
        proof {
            assert(bucket_wf(s@[first as int], nsrc));
        }
        let start = hour_bucket(g, s[first].hour);
        let mut produced: i64 = 0;
        let mut net_used: i64 = 0;
        let mut i: usize = first;
        let mut done = false;
        while i < n && !done
            invariant
                s@ == self.loader.buckets(),
                store_wf(s@, nsrc),
                n == s@.len(),
                first < n,
                first <= i <= n,
                done ==> i > first,
                i == first ==> !done,
                produced == produced_between(s@, first as int, i as int),
                net_used == net_used_between(s@, first as int, i as int),
                in_interval(g, s@[first as int].hour as int, start as int),
                g == Granularity::Hour ==> start == s@[first as int].hour,
                forall|j: int| first <= j < i ==> in_interval(g, #[trigger] s@[j].hour as int, start as int),
                done ==> i < n && exists|o: int| -SECS_PER_DAY < o < SECS_PER_DAY
                    && #[trigger] interval_key(g, s@[i as int].hour as int, o) != start,
                g == Granularity::Hour ==> i <= first + 1,
            decreases n - i, if done { 0int } else { 1int },
        {
            proof {
                assert(bucket_wf(s@[i as int], nsrc));
            }
            let key = if i == first {
                start
            } else {
                hour_bucket(g, s[i].hour)
            };
            if key == start {
                proof {
                    lemma_run_bounded(s@, nsrc, first as int, i as int + 1);
                    lemma_bucket_bounded(s@[i as int], nsrc);
                    if g == Granularity::Hour && i > first {
                        assert(s@[first as int].hour < s@[i as int].hour);
                    }
                }
                match summarize_hourly_energy(&s[i]) {
                    Some((p, u)) => {
                        produced = produced + p.0;
                        net_used = net_used + u.0;
                    },
                    None => {},
                }
                i = i + 1;
            } else {
                done = true;
            }
        }
        proof {
            lemma_run_bounded(s@, nsrc, first as int, i as int);
        }
        self.pos = i;
        Some(IntervalEnergy {
            interval_start: start,
            produced: WattHours(produced),
            net_used: WattHours(net_used),
            consumed: WattHours(produced + net_used),
        })
    }
}

impl DataLoader {
    /// A walk over the store in intervals of granularity `g`.
    pub fn intervals(&self, g: Granularity) -> (r: DataIterator<'_>)
        requires
            self.wf(),
        ensures
            r.wf(),
            r.store() == self.buckets(),
            r.position() == 0,
            r.granularity() == g,
    {
        DataIterator { loader: self, granularity: g, pos: 0 }
    }

    /// Hourly intervals, keyed by UTC hour.
    pub fn hours(&self) -> (r: DataIterator<'_>)
        requires
            self.wf(),
        ensures
            r.wf(),
            r.store() == self.buckets(),
            r.position() == 0,
            r.granularity() == Granularity::Hour,
    {
        self.intervals(Granularity::Hour)
    }

    /// Intervals of one local calendar day.
    pub fn days(&self) -> (r: DataIterator<'_>)
        requires
            self.wf(),
        ensures
            r.wf(),
            r.store() == self.buckets(),
            r.position() == 0,
            r.granularity() == Granularity::Day,
    {
        self.intervals(Granularity::Day)
    }

    /// Intervals of one local calendar month.
    pub fn months(&self) -> (r: MonthIterator<'_>)
        requires
            self.wf(),
        ensures
            r.wf(),
            r.store() == self.buckets(),
            r.position() == 0,
            r.granularity() == Granularity::Month,
    {
        self.intervals(Granularity::Month)
    }

    /// Intervals of one local calendar year.
    pub fn years(&self) -> (r: DataIterator<'_>)
        requires
            self.wf(),
        ensures
            r.wf(),
            r.store() == self.buckets(),
            r.position() == 0,
            r.granularity() == Granularity::Year,
    {
        self.intervals(Granularity::Year)
    }
}


/// The (produced, net used) pair of hour `h` in a store, or `None` where the
/// sources of either category disagree.
pub open spec fn hour_summary(s: Seq<HourlyData>, h: int) -> Option<(int, int)> {
    match (resolve(entries_at(s, h, Category::Production)), resolve(entries_at(s, h, Category::NetUsage))) {
        (Some(p), Some(n)) => Some((p, n)),
        _ => None,
    }
}

proof fn lemma_bucket_summary(s: Seq<HourlyData>, i: int)
    requires
        sorted_hours(s),
        0 <= i < s.len(),
    ensures
        summary(s[i]) == hour_summary(s, s[i].hour as int),
{
    lemma_entries_at(s, i);
    assert(entries_at(s, s[i].hour as int, Category::Production) == s[i].entries(Category::Production));
    assert(entries_at(s, s[i].hour as int, Category::NetUsage) == s[i].entries(Category::NetUsage));
}

proof fn lemma_count_agreeing_positive(s: Seq<HourlyData>, c: Category, idx: nat, j: int)
    requires
        0 <= j < s.len(),
        newest_agrees(s[j], c, idx),
    ensures
        count_agreeing(s, c, idx) >= 1,
    decreases s.len(),
{
    if j < s.len() - 1 {
        assert(s.drop_last()[j] == s[j]);
        lemma_count_agreeing_positive(s.drop_last(), c, idx, j);
    }
}

proof fn lemma_count_conflicting_positive(s: Seq<HourlyData>, c: Category, idx: nat, j: int)
    requires
        0 <= j < s.len(),
        newest_conflicts(s[j], c, idx),
    ensures
        count_conflicting(s, c, idx) >= 1,
    decreases s.len(),
{
    if j < s.len() - 1 {
        assert(s.drop_last()[j] == s[j]);
        lemma_count_conflicting_positive(s.drop_last(), c, idx, j);
    }
}

/// A source that reports, for an hour of a category, the value that the one
/// loaded just before it reported, where no other source had reported that
/// hour in that category: the hour counts once more as a duplicate, and its
/// summary stays what it was after the first of the two loads.
pub proof fn agreeing_sources_merge(
    a0: DataLoader,
    c: Category,
    l1: Seq<char>,
    rs1: Seq<Option<Energy>>,
    a1: DataLoader,
    l2: Seq<char>,
    rs2: Seq<Option<Energy>>,
    a2: DataLoader,
    h: int,
)
    requires
        load_post(a0, c, l1, rs1, a1, true),
        load_post(a1, c, l2, rs2, a2, true),
        entries_at(a0.buckets(), h, c).len() == 0,
        tally(rs1).totals.contains_key(h),
        tally(rs2).totals.contains_key(h),
        tally(rs1).totals[h] == tally(rs2).totals[h],
    ensures
        a1.counts(c).dups_ok < usize::MAX ==> a2.counts(c).dups_ok > a1.counts(c).dups_ok,
        hour_summary(a2.buckets(), h) == hour_summary(a1.buckets(), h),
        resolve(entries_at(a2.buckets(), h, c)) == Some(tally(rs1).totals[h]),
{
    let i1 = a0.labels().len();
    let i2 = a1.labels().len();
    assert(i2 == i1 + 1);
    lemma_tally_bounded(rs1);
    let e1 = entries_at(a1.buckets(), h, c);
    let e2 = entries_at(a2.buckets(), h, c);
    assert(e1 =~= own_entry(tally(rs1), h, i1));
    assert(e2 =~= e1 + own_entry(tally(rs2), h, i2));
    assert(entries_at(a2.buckets(), h, other(c)) == entries_at(a1.buckets(), h, other(c)));
    assert(resolve(e2) == resolve(e1));
    let j = lemma_bucket_of(a2.buckets(), h);
    match c {
        Category::Production => {},
        Category::NetUsage => {},
    }
    assert(newest_agrees(a2.buckets()[j], c, i2 as nat));
    lemma_count_agreeing_positive(a2.buckets(), c, i2 as nat, j);
}

/// Two sources that report different values for an hour of a category, where
/// no other source had reported that hour in that category: the second load
/// counts a conflict and a warning, the hour is kept, and it resolves to
/// nothing, so a report counts it as zero; nothing else is given up.
pub proof fn conflicting_sources_detected(
    a0: DataLoader,
    c: Category,
    l1: Seq<char>,
    rs1: Seq<Option<Energy>>,
    a1: DataLoader,
    l2: Seq<char>,
    rs2: Seq<Option<Energy>>,
    a2: DataLoader,
    h: int,
)
    requires
        load_post(a0, c, l1, rs1, a1, true),
        load_post(a1, c, l2, rs2, a2, true),
        entries_at(a0.buckets(), h, c).len() == 0,
        tally(rs1).totals.contains_key(h),
        tally(rs2).totals.contains_key(h),
        tally(rs1).totals[h] != tally(rs2).totals[h],
    ensures
        a1.warnings() < usize::MAX ==> a2.warnings() > a1.warnings(),
        a1.counts(c).conflicts < usize::MAX ==> a2.counts(c).conflicts > a1.counts(c).conflicts,
        has_hour(a2.buckets(), h),
        hour_summary(a2.buckets(), h) is None,
        forall|i: int| 0 <= i < a2.buckets().len() && #[trigger] a2.buckets()[i].hour == h
            ==> produced_of(a2.buckets()[i]) == 0 && net_used_of(a2.buckets()[i]) == 0,
{
    let i1 = a0.labels().len();
    let i2 = a1.labels().len();
    let e1 = entries_at(a1.buckets(), h, c);
    let e2 = entries_at(a2.buckets(), h, c);
    lemma_tally_bounded(rs1);
    lemma_tally_bounded(rs2);
    assert(e1 =~= own_entry(tally(rs1), h, i1));
    assert(e2 =~= e1 + own_entry(tally(rs2), h, i2));
    assert(e2[1].energy != e2[0].energy);
    assert(resolve(e2) is None);
    let j = lemma_bucket_of(a2.buckets(), h);
    match c {
        Category::Production => {},
        Category::NetUsage => {},
    }
    assert(newest_conflicts(a2.buckets()[j], c, i2 as nat));
    lemma_count_conflicting_positive(a2.buckets(), c, i2 as nat, j);
    assert forall|i: int| 0 <= i < a2.buckets().len() && #[trigger] a2.buckets()[i].hour == h
        implies produced_of(a2.buckets()[i]) == 0 && net_used_of(a2.buckets()[i]) == 0 by {
        lemma_bucket_summary(a2.buckets(), i);
    }
}

/// Once a source is loaded, loading its label again, into either category and
/// with any readings, fails and leaves the loader as it was.
pub proof fn duplicate_source_rejected(
    a0: DataLoader,
    c1: Category,
    label: Seq<char>,
    rs1: Seq<Option<Energy>>,
    a1: DataLoader,
    c2: Category,
    rs2: Seq<Option<Energy>>,
    a2: DataLoader,
    ok2: bool,
)
    requires
        load_post(a0, c1, label, rs1, a1, true),
        load_post(a1, c2, label, rs2, a2, ok2),
    ensures
        !ok2,
        a2 == a1,
{
    assert(a1.labels().last() == label);
    assert(a1.labels().contains(label));
}

proof fn lemma_tally_keeps_keys(rs: Seq<Option<Energy>>, k: int)
    requires
        0 <= k <= rs.len(),
    ensures
        tally(rs.take(k)).totals.dom().subset_of(tally(rs).totals.dom()),
    decreases rs.len() - k,
{
    if k < rs.len() {
        lemma_tally_keeps_keys(rs, k + 1);
        assert(rs.take(k + 1).drop_last() =~= rs.take(k));
    } else {
        assert(rs.take(k) =~= rs);
    }
}

/// A well-formed reading whose value is within the hourly bound leaves its
/// source with a total for the reading's hour.
proof fn lemma_tally_has_reading(rs: Seq<Option<Energy>>, i: int, e: Energy)
    requires
        0 <= i < rs.len(),
        rs[i] == Some(e),
        e.datetime.wf(),
        -MAX_HOURLY_WH <= e.energy_wh.wh() <= MAX_HOURLY_WH,
    ensures
        tally(rs).totals.contains_key(hour_key_of(e.datetime)),
{
    let pre = rs.take(i + 1);
    assert(pre.drop_last() =~= rs.take(i));
    assert(pre.last() == Some(e));
    lemma_tally_keeps_keys(rs, i + 1);
}

/// Readings whose instants fall in two different UTC hours, such as the two
/// local 01:00 hours of a day on which the clocks go back, are kept in two
/// separate buckets, each holding the source's entry; neither is merged into
/// the other or dropped.
pub proof fn distinct_hours_kept_apart(
    a0: DataLoader,
    c: Category,
    label: Seq<char>,
    rs: Seq<Option<Energy>>,
    a1: DataLoader,
    i: int,
    ei: Energy,
    j: int,
    ej: Energy,
)
    requires
        load_post(a0, c, label, rs, a1, true),
        0 <= i < rs.len(),
        0 <= j < rs.len(),
        rs[i] == Some(ei),
        rs[j] == Some(ej),
        ei.datetime.wf(),
        ej.datetime.wf(),
        -MAX_HOURLY_WH <= ei.energy_wh.wh() <= MAX_HOURLY_WH,
        -MAX_HOURLY_WH <= ej.energy_wh.wh() <= MAX_HOURLY_WH,
        hour_key_of(ei.datetime) != hour_key_of(ej.datetime),
    ensures
        has_hour(a1.buckets(), hour_key_of(ei.datetime)),
        has_hour(a1.buckets(), hour_key_of(ej.datetime)),
        entries_at(a1.buckets(), hour_key_of(ei.datetime), c).last().source == a0.labels().len(),
        entries_at(a1.buckets(), hour_key_of(ej.datetime), c).last().source == a0.labels().len(),
{
    lemma_tally_has_reading(rs, i, ei);
    lemma_tally_has_reading(rs, j, ej);
    let idx = a0.labels().len();
    let t = tally(rs);
    let hi = hour_key_of(ei.datetime);
    let hj = hour_key_of(ej.datetime);
    assert(has_hour(a1.buckets(), hi));
    assert(has_hour(a1.buckets(), hj));
    assert(entries_at(a1.buckets(), hi, c) == entries_at(a0.buckets(), hi, c) + own_entry(t, hi, idx));
    assert(entries_at(a1.buckets(), hj, c) == entries_at(a0.buckets(), hj, c) + own_entry(t, hj, idx));
}


impl DataLoader {
    /// The label of the source registered at position `idx`.
    pub fn source_label(&self, idx: usize) -> (r: &str)
        requires
            idx < self.labels().len(),
        ensures
            r@ == self.labels()[idx as int],
    {
        self.sources[idx].label()
    }

    /// Whether reports may be written: a report is all or nothing, so any
    /// warning withholds them.
    pub fn ready_for_reports(&self) -> (r: bool)
        ensures
            r == (self.warnings() == 0),
    {
        self.nwarnings == 0
    }

    /// Number of sources loaded, in either category.
    pub fn nsources(&self) -> (r: usize)
        ensures
            r == self.labels().len(),
    {
        self.sources.len()
    }
}

} // verus!








