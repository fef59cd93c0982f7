//! The hourly store: one bucket per UTC hour, holding each source's value in
//! each category, kept in ascending order of hour.

use crate::common::{WattHours, MAX_HOURLY_WH};
use crate::time::is_hour_key;
use vstd::prelude::*;

verus! {

/// The two kinds of reading that the store keeps apart.
#[derive(Clone, Copy, Debug, PartialEq, Eq, Structural)]
pub enum Category {
    Production,
    NetUsage,
}

/// The energy that one source reported for one hour in one category.
/// `source` is the source's position in the loader's registry.
#[derive(Clone, Copy, Debug, PartialEq, Eq, Structural)]
pub struct SourceEnergy {
    pub source: usize,
    pub energy: WattHours,
}

/// What the sources reported for one UTC hour.
#[derive(Debug)]
pub struct HourlyData {
    /// Start of the hour, in seconds since the Unix epoch.
    pub hour: i64,
    /// One entry per source that reported production in this hour, in the
    /// order in which the sources were loaded.
    pub production: Vec<SourceEnergy>,
    /// One entry per source that reported net usage in this hour.
    pub net_usage: Vec<SourceEnergy>,
}

impl HourlyData {
    /// The entries of one category.
    pub open spec fn entries(&self, c: Category) -> Seq<SourceEnergy> {
        match c {
            Category::Production => self.production@,
            Category::NetUsage => self.net_usage@,
        }
    }
}

/// The single value of a category in one hour, given its per-source entries:
/// zero without entries, the common value where every source agrees, and
/// `None` where two sources disagree.
pub open spec fn resolve(e: Seq<SourceEnergy>) -> Option<int> {
    if e.len() == 0 {
        Some(0)
    } else if forall|k: int| 0 <= k < e.len() ==> #[trigger] e[k].energy == e[0].energy {
        Some(e[0].energy.wh())
    } else {
        None
    }
}

/// The (produced, net used) pair of one hour, or `None` where the sources of
/// either category disagree.
pub open spec fn summary(b: HourlyData) -> Option<(int, int)> {
    match (resolve(b.production@), resolve(b.net_usage@)) {
        (Some(p), Some(n)) => Some((p, n)),
        _ => None,
    }
}

/// Production that an hour adds to a report: nothing where the sources
/// disagree.
pub open spec fn produced_of(b: HourlyData) -> int {
    match summary(b) {
        Some((p, _)) => p,
        None => 0,
    }
}

/// Net usage that an hour adds to a report: nothing where the sources
/// disagree.
pub open spec fn net_used_of(b: HourlyData) -> int {
    match summary(b) {
        Some((_, n)) => n,
        None => 0,
    }
}

/// Whether every entry's value lies within the hourly bound.
pub open spec fn entries_bounded(e: Seq<SourceEnergy>) -> bool {
    forall|k: int| 0 <= k < e.len() ==> -MAX_HOURLY_WH <= #[trigger] e[k].energy.wh() <= MAX_HOURLY_WH
}

/// Collapses the entries of one category into a single value; `None` where
/// two sources disagree.
pub(crate) fn resolve_entries(e: &Vec<SourceEnergy>) -> (r: Option<WattHours>)
    ensures
        match r {
            Some(v) => resolve(e@) == Some(v.wh()),
            None => resolve(e@) is None,
        },
{
    if e.len() == 0 {
        return Some(WattHours(0));
    }
    let first = e[0].energy;
    let mut i: usize = 1;
    while i < e.len()
        invariant
            1 <= i <= e.len(),
            first == e@[0].energy,
            forall|k: int| 0 <= k < i ==> #[trigger] e@[k].energy == first,
        decreases e.len() - i,
    {
        if e[i].energy != first {
            return None;
        }
        i = i + 1;
    }
    Some(first)
}

/// The (produced, net used) pair of one hour, or `None` where two sources
/// disagree in either category.
pub fn summarize_hourly_energy(hourly_energy: &HourlyData) -> (r: Option<(WattHours, WattHours)>)
    ensures
        match r {
            Some((p, n)) => summary(*hourly_energy) == Some((p.wh(), n.wh())),
            None => summary(*hourly_energy) is None,
        },
{
    let produced = resolve_entries(&hourly_energy.production);
    let net_used = resolve_entries(&hourly_energy.net_usage);
    match (produced, net_used) {
        (Some(p), Some(n)) => Some((p, n)),
        _ => None,
    }
}


/// The other category.
pub open spec fn other(c: Category) -> Category {
    match c {
        Category::Production => Category::NetUsage,
        Category::NetUsage => Category::Production,
    }
}

/// Hours in strictly ascending order, hence each at most once.
pub open spec fn sorted_hours(s: Seq<HourlyData>) -> bool {
    forall|i: int, j: int| 0 <= i < j < s.len() ==> #[trigger] s[i].hour < #[trigger] s[j].hour
}

/// Whether the store holds a bucket for hour `h`.
pub open spec fn has_hour(s: Seq<HourlyData>, h: int) -> bool {
    exists|i: int| 0 <= i < s.len() && #[trigger] s[i].hour == h
}

/// The entries of category `c` for hour `h`; empty where the store holds no
/// bucket for that hour.
pub open spec fn entries_at(s: Seq<HourlyData>, h: int, c: Category) -> Seq<SourceEnergy> {
    if has_hour(s, h) {
        s[choose|i: int| 0 <= i < s.len() && #[trigger] s[i].hour == h].entries(c)
    } else {
        Seq::empty()
    }
}

/// Entries of one category: bounded values, sources registered before
/// `nsrc`, each source once and in the order of registration.
pub open spec fn entries_wf(e: Seq<SourceEnergy>, nsrc: nat) -> bool {
    &&& entries_bounded(e)
    &&& forall|k: int| 0 <= k < e.len() ==> #[trigger] e[k].source < nsrc
    &&& forall|k: int, l: int| 0 <= k < l < e.len() ==> #[trigger] e[k].source < #[trigger] e[l].source
}

/// A bucket keyed by an hour, with well-formed entries in both categories.
pub open spec fn bucket_wf(b: HourlyData, nsrc: nat) -> bool {
    &&& is_hour_key(b.hour as int)
    &&& entries_wf(b.production@, nsrc)
    &&& entries_wf(b.net_usage@, nsrc)
}

/// The store's invariant: buckets ordered by hour, each well formed.
pub open spec fn store_wf(s: Seq<HourlyData>, nsrc: nat) -> bool {
    &&& sorted_hours(s)
    &&& forall|i: int| 0 <= i < s.len() ==> bucket_wf(#[trigger] s[i], nsrc)
}

pub(crate) proof fn lemma_entries_at(s: Seq<HourlyData>, i: int)
    requires
        sorted_hours(s),
        0 <= i < s.len(),
    ensures
        has_hour(s, s[i].hour as int),
        forall|c: Category| entries_at(s, s[i].hour as int, c) == #[trigger] s[i].entries(c),
{
    let h = s[i].hour as int;
    assert(s[i].hour == h);
    let j = choose|j: int| 0 <= j < s.len() && #[trigger] s[j].hour == h;
    if j < i {
        assert(s[j].hour < s[i].hour);
    } else if i < j {
        assert(s[i].hour < s[j].hour);
    }
}

/// Replacing a bucket by one of the same hour leaves every other hour alone.
proof fn lemma_update_keeps_others(s: Seq<HourlyData>, i: int, b: HourlyData, h: int)
    requires
        sorted_hours(s),
        0 <= i < s.len(),
        b.hour == s[i].hour,
        h != s[i].hour,
    ensures
        sorted_hours(s.update(i, b)),
        has_hour(s.update(i, b), h) == has_hour(s, h),
        forall|c: Category| entries_at(s.update(i, b), h, c) == #[trigger] entries_at(s, h, c),
{
    let t = s.update(i, b);
    assert(sorted_hours(t)) by {
        assert forall|x: int, y: int| 0 <= x < y < t.len() implies #[trigger] t[x].hour < #[trigger] t[y].hour by {
            assert(s[x].hour < s[y].hour);
        }
    }
    if has_hour(s, h) {
        let j = choose|j: int| 0 <= j < s.len() && #[trigger] s[j].hour == h;
        assert(t[j] == s[j]);
        lemma_entries_at(s, j);
        lemma_entries_at(t, j);
    }
    if has_hour(t, h) {
        let j = choose|j: int| 0 <= j < t.len() && #[trigger] t[j].hour == h;
        assert(t[j] == s[j]);
        assert(s[j].hour == h);
    }
}

/// Inserting a bucket for a new hour at its ordered place leaves every other
/// hour alone.
proof fn lemma_insert_keeps_others(s: Seq<HourlyData>, p: int, b: HourlyData, h: int)
    requires
        sorted_hours(s),
        0 <= p <= s.len(),
        forall|j: int| 0 <= j < p ==> #[trigger] s[j].hour < b.hour,
        forall|j: int| p <= j < s.len() ==> #[trigger] s[j].hour > b.hour,
        h != b.hour,
    ensures
        sorted_hours(s.insert(p, b)),
        has_hour(s.insert(p, b), h) == has_hour(s, h),
        forall|c: Category| entries_at(s.insert(p, b), h, c) == #[trigger] entries_at(s, h, c),
{
    let t = s.insert(p, b);
    assert(sorted_hours(t)) by {
        assert forall|x: int, y: int| 0 <= x < y < t.len() implies #[trigger] t[x].hour < #[trigger] t[y].hour by {
            if y < p {
                assert(s[x].hour < s[y].hour);
            } else if y == p {
                assert(s[x].hour < b.hour);
            } else if x < p {
                assert(s[x].hour < s[y - 1].hour);
            } else if x == p {
                assert(s[y - 1].hour > b.hour);
            } else {
                assert(s[x - 1].hour < s[y - 1].hour);
            }
        }
    }
    if has_hour(s, h) {
        let j = choose|j: int| 0 <= j < s.len() && #[trigger] s[j].hour == h;
        let k = if j < p { j } else { j + 1 };
        assert(t[k] == s[j]);
        lemma_entries_at(s, j);
        lemma_entries_at(t, k);
    }
    if has_hour(t, h) {
        let k = choose|k: int| 0 <= k < t.len() && #[trigger] t[k].hour == h;
        assert(k != p);
        let j = if k < p { k } else { k - 1 };
        assert(t[k] == s[j]);
        assert(s[j].hour == h);
    }
}

/// Finds the bucket of hour `h`: `Ok` with its position, or `Err` with the
/// position where a bucket for `h` belongs.
pub(crate) fn find_hour(s: &Vec<HourlyData>, h: i64) -> (r: Result<usize, usize>)
    requires
        sorted_hours(s@),
    ensures
        match r {
            Ok(i) => i < s.len() && s@[i as int].hour == h,
            Err(p) => {
                &&& p <= s.len()
                &&& forall|j: int| 0 <= j < p ==> #[trigger] s@[j].hour < h
                &&& forall|j: int| p <= j < s.len() ==> #[trigger] s@[j].hour > h
            },
        },
{
    let mut lo: usize = 0;
    let mut hi: usize = s.len();
    while lo < hi
        invariant
            lo <= hi <= s.len(),
            sorted_hours(s@),
            forall|j: int| 0 <= j < lo ==> #[trigger] s@[j].hour < h,
            forall|j: int| hi <= j < s.len() ==> #[trigger] s@[j].hour > h,
        decreases hi - lo,
    {
        let mid = lo + (hi - lo) / 2;
        let m = s[mid].hour;
        if m == h {
            return Ok(mid);
        } else if m < h {
            assert forall|j: int| 0 <= j < mid + 1 implies #[trigger] s@[j].hour < h by {
                if j < mid {
                    assert(s@[j].hour < s@[mid as int].hour);
                }
            }
            lo = mid + 1;
        } else {
            assert forall|j: int| mid <= j < s.len() implies #[trigger] s@[j].hour > h by {
                if j > mid {
                    assert(s@[mid as int].hour < s@[j].hour);
                }
            }
            hi = mid;
        }
    }
    Err(lo)
}


/// The value of source `idx` in entries where, if present, it is the last
/// entry.
pub open spec fn own_value(e: Seq<SourceEnergy>, idx: nat) -> Option<int> {
    if e.len() > 0 && e.last().source == idx {
        Some(e.last().energy.wh())
    } else {
        None
    }
}

/// The entries with source `idx`'s value set to `v`: its entry replaced
/// where present, appended otherwise.
pub open spec fn with_own_value(e: Seq<SourceEnergy>, idx: nat, v: int) -> Seq<SourceEnergy> {
    let base = if own_value(e, idx) is Some {
        e.drop_last()
    } else {
        e
    };
    base.push(SourceEnergy { source: idx as usize, energy: WattHours(v as i64) })
}

proof fn lemma_with_own_value_wf(e: Seq<SourceEnergy>, idx: nat, v: int)
    requires
        entries_wf(e, idx + 1),
        idx <= usize::MAX,
        -MAX_HOURLY_WH <= v <= MAX_HOURLY_WH,
    ensures
        entries_wf(with_own_value(e, idx, v), idx + 1),
        own_value(with_own_value(e, idx, v), idx) == Some(v),
{
    let n = with_own_value(e, idx, v);
    let base = if own_value(e, idx) is Some { e.drop_last() } else { e };
    assert forall|k: int| 0 <= k < base.len() implies #[trigger] base[k].source < idx by {
        if own_value(e, idx) is None && k == e.len() - 1 {
        } else if k < e.len() - 1 {
            assert(e[k].source < e[e.len() - 1].source);
        }
    }
    assert forall|k: int, l: int| 0 <= k < l < n.len() implies #[trigger] n[k].source < #[trigger] n[l].source by {
        if l < base.len() {
            assert(e[k].source < e[l].source);
        }
    }
    assert(entries_bounded(n)) by {
        assert forall|k: int| 0 <= k < n.len() implies -MAX_HOURLY_WH <= #[trigger] n[k].energy.wh() <= MAX_HOURLY_WH by {
            if k < base.len() {
                assert(n[k] == e[k]);
            }
        }
    }
}

impl HourlyData {
    /// A bucket for hour `hour` holding one entry, in category `c`.
    fn single(hour: i64, c: Category, entry: SourceEnergy) -> (r: HourlyData)
        ensures
            r.hour == hour,
            r.entries(c) == seq![entry],
            r.entries(other(c)) == Seq::<SourceEnergy>::empty(),
    {
        let mut one = Vec::new();
        one.push(entry);
        match c {
            Category::Production => HourlyData { hour, production: one, net_usage: Vec::new() },
            Category::NetUsage => HourlyData { hour, production: Vec::new(), net_usage: one },
        }
    }

    /// The entries of category `c`.
    pub fn entries_of(&self, c: Category) -> (r: &Vec<SourceEnergy>)
        ensures
            r@ == self.entries(c),
    {
        match c {
            Category::Production => &self.production,
            Category::NetUsage => &self.net_usage,
        }
    }

    /// Sets source `idx`'s value in category `c` to `v`.
    fn set_own_value(&mut self, c: Category, idx: usize, v: i64)
        ensures
            final(self).hour == old(self).hour,
            final(self).entries(c) == with_own_value(old(self).entries(c), idx as nat, v as int),
            final(self).entries(other(c)) == old(self).entries(other(c)),
    {
        let entry = SourceEnergy { source: idx, energy: WattHours(v) };
        let e = match c {
            Category::Production => &mut self.production,
            Category::NetUsage => &mut self.net_usage,
        };
        let n = e.len();
        if n > 0 && e[n - 1].source == idx {
            e.set(n - 1, entry);
        } else {
            e.push(entry);
        }
        proof {
            let o = old(self).entries(c);
            if o.len() > 0 && o.last().source == idx {
                assert(e@ =~= o.drop_last().push(entry));
            }
        }
    }
}

/// Adds `wh` to source `idx`'s value for hour `h` in category `c`, creating
/// the entry, and the bucket, where missing.  Refuses (and changes nothing)
/// where the new value would leave the hourly bound.  Returns whether it was
/// accepted and whether the source had an entry for that hour already.
pub(crate) fn add_reading(s: &mut Vec<HourlyData>, c: Category, idx: usize, h: i64, wh: i64) -> (r: (bool, bool))
    requires
        store_wf(old(s)@, idx as nat + 1),
        is_hour_key(h as int),
    ensures
        ({
            let e = entries_at(old(s)@, h as int, c);
            let own = own_value(e, idx as nat);
            let cur = if own is Some { own->0 } else { 0 };
            &&& r.1 == own is Some
            &&& r.0 == (-MAX_HOURLY_WH <= cur + wh <= MAX_HOURLY_WH)
            &&& r.0 ==> has_hour(final(s)@, h as int)
            &&& r.0 ==> entries_at(final(s)@, h as int, c) == with_own_value(e, idx as nat, cur + wh)
            &&& r.0 ==> entries_at(final(s)@, h as int, other(c)) == entries_at(old(s)@, h as int, other(c))
        }),
        !r.0 ==> final(s)@ == old(s)@,
        forall|g: int| g != h ==> has_hour(final(s)@, g) == has_hour(old(s)@, g),
        forall|g: int, d: Category| g != h ==> #[trigger] entries_at(final(s)@, g, d) == entries_at(old(s)@, g, d),
        store_wf(final(s)@, idx as nat + 1),
{
    let ghost s0 = s@;
    match find_hour(s, h) {
        Ok(i) => {
            proof {
                lemma_entries_at(s0, i as int);
            }
            let e = s[i].entries_of(c);
            let n = e.len();
            let own = n > 0 && e[n - 1].source == idx;
            let cur: i64 = if own { e[n - 1].energy.0 } else { 0 };
            proof {
                assert(bucket_wf(s0[i as int], idx as nat + 1));
                if own {
                    assert(entries_bounded(e@));
                    assert(-MAX_HOURLY_WH <= e@[n - 1].energy.wh() <= MAX_HOURLY_WH);
                }
            }
            if wh < -2 * MAX_HOURLY_WH || wh > 2 * MAX_HOURLY_WH {
                return (false, own);
            }
            let next = cur + wh;
            if next < -MAX_HOURLY_WH || next > MAX_HOURLY_WH {
                return (false, own);
            }
            s[i].set_own_value(c, idx, next);
            proof {
                let b = s@[i as int];
                assert(s@ == s0.update(i as int, b));
                lemma_with_own_value_wf(s0[i as int].entries(c), idx as nat, next as int);
                assert(entries_wf(b.entries(other(c)), idx as nat + 1));
                assert(bucket_wf(b, idx as nat + 1)) by {
                    match c {
                        Category::Production => {},
                        Category::NetUsage => {},
                    }
                }
                assert forall|g: int| g != h implies has_hour(s@, g) == has_hour(s0, g)
                    && forall|d: Category| #[trigger] entries_at(s@, g, d) == entries_at(s0, g, d) by {
                    lemma_update_keeps_others(s0, i as int, b, g);
                }
                lemma_update_keeps_others(s0, i as int, b, h as int + 1);
                lemma_entries_at(s@, i as int);
                assert forall|x: int| 0 <= x < s@.len() implies bucket_wf(#[trigger] s@[x], idx as nat + 1) by {
                    if x != i {
                        assert(s@[x] == s0[x]);
                    }
                }
            }
            (true, own)
        },
        Err(p) => {
            proof {
                assert(!has_hour(s0, h as int));
            }
            if wh < -MAX_HOURLY_WH || wh > MAX_HOURLY_WH {
                return (false, false);
            }
            let b = HourlyData::single(h, c, SourceEnergy { source: idx, energy: WattHours(wh) });
            s.insert(p, b);
            proof {
                let b = s@[p as int];
                assert(s@ == s0.insert(p as int, b));
                assert(with_own_value(Seq::empty(), idx as nat, wh as int) =~= seq![SourceEnergy { source: idx, energy: WattHours(wh) }]);
                assert forall|g: int| g != h implies has_hour(s@, g) == has_hour(s0, g)
                    && forall|d: Category| #[trigger] entries_at(s@, g, d) == entries_at(s0, g, d) by {
                    lemma_insert_keeps_others(s0, p as int, b, g);
                }
                lemma_insert_keeps_others(s0, p as int, b, h as int + 1);
                lemma_entries_at(s@, p as int);
                assert(bucket_wf(b, idx as nat + 1)) by {
                    match c {
                        Category::Production => {},
                        Category::NetUsage => {},
                    }
                }
                assert forall|x: int| 0 <= x < s@.len() implies bucket_wf(#[trigger] s@[x], idx as nat + 1) by {
                    if x < p {
                        assert(s@[x] == s0[x]);
                    } else if x > p {
                        assert(s@[x] == s0[x - 1]);
                    }
                }
            }
            (true, false)
        },
    }
}


/// The bucket of hour `h` and its position.
pub(crate) proof fn lemma_bucket_of(s: Seq<HourlyData>, h: int) -> (j: int)
    requires
        sorted_hours(s),
        has_hour(s, h),
    ensures
        0 <= j < s.len(),
        s[j].hour == h,
        forall|c: Category| #[trigger] s[j].entries(c) == entries_at(s, h, c),
{
    let j = choose|j: int| 0 <= j < s.len() && #[trigger] s[j].hour == h;
    lemma_entries_at(s, j);
    j
}

pub(crate) proof fn lemma_entries_at_wf(s: Seq<HourlyData>, n: nat, h: int, c: Category)
    requires
        store_wf(s, n),
    ensures
        entries_wf(entries_at(s, h, c), n),
{
    if has_hour(s, h) {
        let i = choose|i: int| 0 <= i < s.len() && #[trigger] s[i].hour == h;
        lemma_entries_at(s, i);
        assert(bucket_wf(s[i], n));
        match c {
            Category::Production => {},
            Category::NetUsage => {},
        }
    }
}

/// Where the entries of one category disagree, the first entry and the first
/// entry whose value differs from it; `None` where they all agree.
pub fn disagreement(e: &Vec<SourceEnergy>) -> (r: Option<(SourceEnergy, SourceEnergy)>)
    ensures
        r is None <==> resolve(e@) is Some,
        r matches Some((a, b)) ==> a == e@[0] && a.energy != b.energy
            && exists|k: int| 0 < k < e@.len() && e@[k] == b
                && forall|j: int| 0 <= j < k ==> #[trigger] e@[j].energy == a.energy,
{
    if e.len() == 0 {
        return None;
    }
    let first = e[0];
    let mut i: usize = 1;
    while i < e.len()
        invariant
            1 <= i <= e.len(),
            first == e@[0],
            forall|k: int| 0 <= k < i ==> #[trigger] e@[k].energy == first.energy,
        decreases e.len() - i,
    {
        if e[i].energy != first.energy {
            assert(resolve(e@) is None);
            return Some((first, e[i]));
        }
        i = i + 1;
    }
    None
}

} // verus!
