//! Scenario reports: lifecycle summary, energy totals and state-of-charge
//! statistics.

use crate::fold::{
    exact_fold_adds_up, folds, folds_agree, folds_push, is_single_valued, sum_of,
};
use crate::order::{
    as_ints, order_of, positions, sorted_keys_ascend, sorting_keeps_items, stable_order,
    stable_order_exists, stably_sorted,
};
use crate::scalar::{hundred, wide_zero, Scalar, Wide};
use crate::scenario::ScenarioJournal;
use crate::time::{Moment, Span, FIRST_SECOND, LAST_SECOND};
use vstd::arithmetic::power2::{lemma2_to64, pow2};
use vstd::prelude::*;

verus! {

/// Statistics over the batteries' current state of charge.
#[derive(Clone, Copy, Debug, PartialEq, Eq, Structural)]
pub struct SocStats {
    pub mean_pct: Wide,
    /// The middle value; the lower of the two for an even count.
    pub median_pct: Scalar,
    /// The most frequent whole percent; the lowest of several.
    pub mode_pct: Option<u8>,
}

/// How many steps of the significand make one, for a value of exponent `e`
/// between one half and 256.
pub open spec fn steps_per_one(e: int) -> int {
    if e == 126 {
        0x100_0000
    } else if e == 127 {
        0x80_0000
    } else if e == 128 {
        0x40_0000
    } else if e == 129 {
        0x20_0000
    } else if e == 130 {
        0x10_0000
    } else if e == 131 {
        0x8_0000
    } else if e == 132 {
        0x4_0000
    } else {
        0x2_0000
    }
}

/// The whole percent that a value counts for: held to 0..=100 and rounded,
/// halves up. NaN counts for zero.
pub open spec fn percent_of(v: Scalar) -> int {
    let e = v.bits as int / 0x80_0000;
    let sig = v.bits as int % 0x80_0000 + 0x80_0000;
    if v.spec_is_nan() || v.spec_rank() <= 0 || e < 126 {
        0
    } else if v.spec_rank() >= hundred().spec_rank() {
        100
    } else {
        (2 * sig + steps_per_one(e)) / (2 * steps_per_one(e))
    }
}

pub fn percent_bucket(v: Scalar) -> (out: usize)
    ensures
        out == percent_of(v),
        out <= 100,
{
    if v.is_nan() || v.rank() <= 0 {
        return 0;
    }
    let e: u32 = v.bits / 0x80_0000;
    if e < 126 {
        return 0;
    }
    if v.rank() >= hundred().rank() {
        return 100;
    }
    let sig: u32 = v.bits % 0x80_0000 + 0x80_0000;
    let step: u32 = if e == 126 {
        0x100_0000
    } else if e == 127 {
        0x80_0000
    } else if e == 128 {
        0x40_0000
    } else if e == 129 {
        0x20_0000
    } else if e == 130 {
        0x10_0000
    } else if e == 131 {
        0x8_0000
    } else if e == 132 {
        0x4_0000
    } else {
        0x2_0000
    };
    let out: u32 = (2 * sig + step) / (2 * step);
    assert(hundred().spec_rank() == 0x42c8_0000);
    assert(e <= 133);
    assert(e == 133 ==> sig < 0xc8_0000);
    assert(2 * sig + step < 202 * step);
    assert((2 * sig + step) / (2 * step) <= 100) by (nonlinear_arith)
        requires
            step > 0,
            2 * sig + step < 202 * step,
    ;
    out as usize
}

/// How many of `values` count for `percent`.
pub open spec fn tally(values: Seq<Scalar>, percent: int) -> nat
    decreases values.len(),
{
    if values.len() == 0 {
        0
    } else {
        tally(values.drop_last(), percent) + (if percent_of(values.last()) == percent {
            1nat
        } else {
            0
        })
    }
}

/// `m` is the most frequent whole percent, the lowest of several.
pub open spec fn is_mode(values: Seq<Scalar>, m: int) -> bool {
    &&& 0 <= m <= 100
    &&& forall|p: int| 0 <= p <= 100 ==> #[trigger] tally(values, p) <= tally(values, m)
    &&& forall|p: int| 0 <= p < m ==> #[trigger] tally(values, p) < tally(values, m)
}

pub open spec fn ranks(values: Seq<Scalar>) -> Seq<int> {
    values.map_values(|v: Scalar| v.spec_rank())
}

/// The middle value in ascending order, the lower of two.
pub open spec fn median_of(values: Seq<Scalar>) -> Scalar {
    stably_sorted(values, ranks(values))[(values.len() - 1) / 2]
}

fn median(values: &Vec<Scalar>) -> (out: Scalar)
    requires
        values.len() > 0,
    ensures
        out == median_of(values@),
{
    let mut keys: Vec<i64> = Vec::new();
    let mut i: usize = 0;
    while i < values.len()
        invariant
            i <= values.len(),
            keys.len() == i,
            forall|k: int| 0 <= k < i ==> #[trigger] keys[k] == values[k].spec_rank(),
        decreases values.len() - i,
    {
        keys.push(values[i].rank());
        i = i + 1;
    }
    let order = stable_order(&keys);
    assert(as_ints(keys@) =~= ranks(values@));
    let middle: usize = (values.len() - 1) / 2;
    assert(positions(order@)[middle as int] == order[middle as int]);
    values[order[middle]]
}

fn histogram(values: &Vec<Scalar>) -> (out: Vec<usize>)
    ensures
        out.len() == 101,
        forall|p: int| 0 <= p <= 100 ==> #[trigger] out[p] == tally(values@, p),
{
    let mut counts: Vec<usize> = Vec::new();
    let mut n: usize = 0;
    while n < 101
        invariant
            n <= 101,
            counts.len() == n,
            forall|p: int| 0 <= p < n ==> #[trigger] counts[p] == 0,
        decreases 101 - n,
    {
        counts.push(0);
        n = n + 1;
    }
    let mut i: usize = 0;
    assert(values@.subrange(0, 0) =~= Seq::<Scalar>::empty());
    while i < values.len()
        invariant
            i <= values.len(),
            counts.len() == 101,
            forall|p: int|
                0 <= p <= 100 ==> #[trigger] counts[p] == tally(
                    values@.subrange(0, i as int),
                    p,
                ) && counts[p] <= i,
        decreases values.len() - i,
    {
        assert(values@.subrange(0, i + 1).drop_last() =~= values@.subrange(0, i as int));
        let bucket: usize = percent_bucket(values[i]);
        let count: usize = counts[bucket];
        counts.set(bucket, count + 1);
        i = i + 1;
    }
    assert(values@.subrange(0, values@.len() as int) =~= values@);
    counts
}

fn most_frequent(values: &Vec<Scalar>) -> (out: u8)
    requires
        values.len() > 0,
    ensures
        is_mode(values@, out as int),
{
    let counts = histogram(values);
    let mut mode: u8 = 0;
    let mut best: usize = 0;
    let mut p: usize = 0;
    while p < 101
        invariant
            p <= 101,
            counts.len() == 101,
            forall|k: int| 0 <= k <= 100 ==> #[trigger] counts[k] == tally(values@, k),
            mode <= 100,
            best == 0 ==> mode == 0,
            best > 0 ==> mode < p && counts[mode as int] == best,
            forall|k: int| 0 <= k < p ==> #[trigger] counts[k] <= best,
            forall|k: int| 0 <= k < mode ==> #[trigger] counts[k] < best,
        decreases 101 - p,
    {
        if counts[p] > best {
            best = counts[p];
            mode = p as u8;
        }
        p = p + 1;
    }
    proof {
        some_bucket_counts(values@);
        let w = choose|w: int| 0 <= w <= 100 && #[trigger] tally(values@, w) > 0;
        assert(counts[w] > 0);
        assert forall|k: int| 0 <= k <= 100 implies #[trigger] tally(values@, k) <= tally(
            values@,
            mode as int,
        ) by {
            assert(counts[k] <= best);
        }
        assert forall|k: int| 0 <= k < mode implies #[trigger] tally(values@, k) < tally(
            values@,
            mode as int,
        ) by {
            assert(counts[k] < best);
        }
    }
    mode
}

proof fn percent_in_range(v: Scalar)
    ensures
        0 <= percent_of(v) <= 100,
{
    let e = v.bits as int / 0x80_0000;
    let sig = v.bits as int % 0x80_0000 + 0x80_0000;
    if !v.spec_is_nan() && v.spec_rank() > 0 && e >= 126 && v.spec_rank()
        < hundred().spec_rank() {
        assert(hundred().spec_rank() == 0x42c8_0000);
        assert(e <= 133);
        assert(e == 133 ==> sig < 0xc8_0000);
        let step = steps_per_one(e);
        assert(2 * sig + step < 202 * step);
        assert(0 <= (2 * sig + step) / (2 * step) <= 100) by (nonlinear_arith)
            requires
                step > 0,
                0 <= 2 * sig + step < 202 * step,
        ;
    }
}

proof fn some_bucket_counts(values: Seq<Scalar>)
    requires
        values.len() > 0,
    ensures
        exists|w: int| 0 <= w <= 100 && #[trigger] tally(values, w) > 0,
{
    percent_in_range(values.last());
    assert(tally(values, percent_of(values.last())) > 0);
}

/// Mean, median and mode of the batteries' state of charge; `mean` averages.
/// Absent without values.
pub fn compute_soc_stats<F: Fn(&Vec<Scalar>) -> Wide>(socs: &Vec<Scalar>, mean: F) -> (out: Option<
    SocStats,
>)
    requires
        call_requires(mean, (socs,)),
    ensures
        out is None == (socs@.len() == 0),
        out matches Some(stats) ==> {
            &&& call_ensures(mean, (socs,), stats.mean_pct)
            &&& stats.median_pct == median_of(socs@)
            &&& stats.mode_pct matches Some(m) && is_mode(socs@, m as int)
        },
{
    if socs.len() == 0 {
        return None;
    }
    let mean_pct: Wide = mean(socs);
    let median_pct = median(socs);
    let mode: u8 = most_frequent(socs);
    Some(SocStats { mean_pct, median_pct, mode_pct: Some(mode) })
}

/// There is only one mode.
pub proof fn mode_is_unique(values: Seq<Scalar>, a: int, b: int)
    requires
        is_mode(values, a),
        is_mode(values, b),
    ensures
        a == b,
{
    assert(tally(values, a) <= tally(values, b) && tally(values, b) <= tally(values, a));
}

/// How many of `values` pass `test`.
spec fn passing(values: Seq<Scalar>, test: spec_fn(Scalar) -> bool) -> nat
    decreases values.len(),
{
    if values.len() == 0 {
        0
    } else {
        passing(values.drop_last(), test) + (if test(values.last()) {
            1nat
        } else {
            0
        })
    }
}

proof fn passing_ignores_order(values: Seq<Scalar>, test: spec_fn(Scalar) -> bool)
    ensures
        passing(values, test) == values.to_multiset().filter(test).len(),
    decreases values.len(),
{
    broadcast use vstd::seq_lib::group_to_multiset_ensures;

    let all = values.to_multiset();
    if values.len() == 0 {
        assert(all.filter(test) =~= vstd::multiset::Multiset::empty());
    } else {
        let init = values.drop_last();
        let last = values.last();
        passing_ignores_order(init, test);
        vstd::seq_lib::to_multiset_build(init, last);
        assert(init.push(last) =~= values);
        let before = init.to_multiset().filter(test);
        if test(last) {
            assert(all.filter(test) =~= before.insert(last));
        } else {
            assert(all.filter(test) =~= before);
        }
    }
}

proof fn tally_is_passing(values: Seq<Scalar>, percent: int)
    ensures
        tally(values, percent) == passing(values, |v: Scalar| percent_of(v) == percent),
    decreases values.len(),
{
    if values.len() > 0 {
        tally_is_passing(values.drop_last(), percent);
    }
}

proof fn rank_count_is_passing(values: Seq<Scalar>, rank: int)
    ensures
        ranks(values).to_multiset().count(rank) == passing(
            values,
            |v: Scalar| v.spec_rank() == rank,
        ),
    decreases values.len(),
{
    broadcast use vstd::seq_lib::group_to_multiset_ensures;

    if values.len() == 0 {
        assert(ranks(values) =~= Seq::<int>::empty());
    } else {
        let init = values.drop_last();
        rank_count_is_passing(init, rank);
        vstd::seq_lib::to_multiset_build(ranks(init), values.last().spec_rank());
        assert(ranks(init).push(values.last().spec_rank()) =~= ranks(values));
    }
}

proof fn median_is_middle_rank(values: Seq<Scalar>)
    requires
        values.len() > 0,
    ensures
        median_of(values).spec_rank() == stably_sorted(ranks(values), ranks(values))[(values.len()
            - 1) / 2],
{
    let keys = ranks(values);
    stable_order_exists(keys);
    let middle = (values.len() - 1) / 2;
    let at = order_of(keys)[middle];
    assert(0 <= at < keys.len());
}

/// The order of the values does not matter: their median compares the same and
/// their mode is the same.
pub proof fn statistics_ignore_order(a: Seq<Scalar>, b: Seq<Scalar>, mode: int)
    requires
        a.len() > 0,
        a.to_multiset() == b.to_multiset(),
    ensures
        median_of(a).spec_rank() == median_of(b).spec_rank(),
        is_mode(a, mode) == is_mode(b, mode),
{
    assert forall|p: int| #[trigger] tally(a, p) == tally(b, p) by {
        let test = |v: Scalar| percent_of(v) == p;
        tally_is_passing(a, p);
        tally_is_passing(b, p);
        passing_ignores_order(a, test);
        passing_ignores_order(b, test);
    }
    assert(is_mode(a, mode) == is_mode(b, mode)) by {
        assert forall|p: int| #[trigger] tally(b, p) == tally(a, p) by {
            assert(tally(a, p) == tally(b, p));
        }
    }
    vstd::seq_lib::to_multiset_len(a);
    vstd::seq_lib::to_multiset_len(b);
    let ra = ranks(a);
    let rb = ranks(b);
    assert forall|r: int| ra.to_multiset().count(r) == rb.to_multiset().count(r) by {
        let test = |v: Scalar| v.spec_rank() == r;
        rank_count_is_passing(a, r);
        rank_count_is_passing(b, r);
        passing_ignores_order(a, test);
        passing_ignores_order(b, test);
    }
    assert(ra.to_multiset() =~= rb.to_multiset());
    let sa = stably_sorted(ra, ra);
    let sb = stably_sorted(rb, rb);
    sorting_keeps_items(ra, ra);
    sorting_keeps_items(rb, rb);
    let leq = |x: int, y: int| x <= y;
    stable_order_exists(ra);
    stable_order_exists(rb);
    assert forall|i: int, j: int| 0 <= i < j < sa.len() implies #[trigger] leq(sa[i], sa[j]) by {
        sorted_keys_ascend(ra, i, j);
    }
    assert forall|i: int, j: int| 0 <= i < j < sb.len() implies #[trigger] leq(sb[i], sb[j]) by {
        sorted_keys_ascend(rb, i, j);
    }
    vstd::seq_lib::lemma_sorted_unique(sa, sb, leq);
    median_is_middle_rank(a);
    median_is_middle_rank(b);
}

/// Energy through one battery, in watt-hours.
#[derive(Clone, Copy, Debug, PartialEq, Eq, Structural)]
pub struct PerBatteryReport {
    pub id: u64,
    pub charge_wh: Wide,
    pub discharge_wh: Wide,
}

/// Energy from one solar inverter, in watt-hours.
#[derive(Clone, Copy, Debug, PartialEq, Eq, Structural)]
pub struct PerPvReport {
    pub id: u64,
    pub produced_wh: Wide,
}

/// The main meter's readings of one window: their sum and how many.
#[derive(Clone, Copy, Debug, PartialEq, Eq, Structural)]
pub struct WindowSum {
    pub start_secs: i64,
    pub sum_w: Wide,
    pub count: u64,
}

/// The average of one window.
#[derive(Clone, Copy, Debug, PartialEq, Eq, Structural)]
pub struct WindowAverageEntry {
    pub window_start: Moment,
    pub avg_w: Wide,
}

/// The result of one timed assertion.
#[derive(Debug)]
pub struct ScenarioCheck {
    pub at: Moment,
    pub component: Option<i64>,
    pub metric: Option<String>,
    pub passed: bool,
}

impl Clone for ScenarioCheck {
    fn clone(&self) -> (out: Self)
        ensures
            out == *self,
    {
        ScenarioCheck {
            at: self.at,
            component: self.component,
            metric: match &self.metric {
                Some(m) => Some(m.clone()),
                None => None,
            },
            passed: self.passed,
        }
    }
}

/// What a scenario accumulates besides its journal.
#[derive(Debug)]
pub struct ScenarioTotals {
    pub per_battery: Vec<PerBatteryReport>,
    pub per_pv: Vec<PerPvReport>,
    pub windows: Vec<WindowSum>,
    pub checks: Vec<ScenarioCheck>,
    pub checks_passed: u64,
    pub checks_failed: u64,
}

impl ScenarioTotals {
    /// The windows start at instants of the calendar and stand in order of
    /// time, each once.
    pub open spec fn wf(self) -> bool {
        &&& forall|i: int|
            0 <= i < self.windows@.len() ==> FIRST_SECOND <= (
            #[trigger] self.windows@[i]).start_secs <= LAST_SECOND
        &&& forall|i: int, j: int|
            0 <= i < j < self.windows@.len() ==> (#[trigger] self.windows@[i]).start_secs < (
            #[trigger] self.windows@[j]).start_secs
    }
}

impl Default for ScenarioTotals {
    fn default() -> (out: Self)
        ensures
            out.wf(),
            out.per_battery@.len() == 0,
            out.per_pv@.len() == 0,
            out.windows@.len() == 0,
            out.checks@.len() == 0,
            out.checks_passed == 0,
            out.checks_failed == 0,
    {
        ScenarioTotals {
            per_battery: Vec::new(),
            per_pv: Vec::new(),
            windows: Vec::new(),
            checks: Vec::new(),
            checks_passed: 0,
            checks_failed: 0,
        }
    }
}

#[derive(Debug)]
pub struct ScenarioReport {
    pub scenario_elapsed: Span,
    pub peak_main_meter_w: Scalar,
    pub main_meter_id: Option<u64>,
    pub total_battery_charged_wh: Wide,
    pub total_battery_discharged_wh: Wide,
    pub total_pv_produced_wh: Wide,
    pub per_battery: Vec<PerBatteryReport>,
    pub per_pv: Vec<PerPvReport>,
    pub soc_stats: Option<SocStats>,
    pub main_meter_window_averages: Vec<WindowAverageEntry>,
    pub checks_passed: u64,
    pub checks_failed: u64,
    pub checks: Vec<ScenarioCheck>,
}

/// A scenario's lifecycle state.
#[derive(Debug)]
pub struct ScenarioSummary {
    pub name: Option<String>,
    pub started_at: Option<Moment>,
    pub ended_at: Option<Moment>,
    pub elapsed: Span,
    pub event_count: usize,
    pub next_event_id: u64,
    pub earliest_event_id: u64,
}

/// `out` is the lifecycle state of a journal.
pub open spec fn is_summary(journal: ScenarioJournal, now: Moment, out: ScenarioSummary) -> bool {
    &&& out.name == journal.name
    &&& out.started_at == journal.started_at
    &&& out.ended_at == journal.ended_at
    &&& out.elapsed.nanos == journal.spec_elapsed(now)
    &&& out.event_count == journal.events@.len()
    &&& out.next_event_id == journal.next_id
    &&& out.earliest_event_id == journal.next_id - journal.events@.len()
}

/// The lifecycle state of a journal.
pub fn summarize(journal: &ScenarioJournal, now: Moment) -> (out: ScenarioSummary)
    requires
        journal.wf(),
        now.in_calendar(),
    ensures
        is_summary(*journal, now, out),
{
    ScenarioSummary {
        name: match &journal.name {
            Some(n) => Some(n.clone()),
            None => None,
        },
        started_at: journal.started_at,
        ended_at: journal.ended_at,
        elapsed: journal.elapsed(now),
        event_count: journal.event_count(),
        next_event_id: journal.next_event_id(),
        earliest_event_id: journal.earliest_event_id(),
    }
}

/// When the window that starts at second `secs` starts; `now` where the
/// calendar has no such instant.
pub open spec fn window_start(secs: i64, now: Moment) -> int {
    if FIRST_SECOND <= secs <= LAST_SECOND {
        secs * 1_000_000_000
    } else {
        now.nanos as int
    }
}

/// The instant that a window starts at.
pub fn start_of_window(secs: i64, now: Moment) -> (out: Moment)
    ensures
        out.nanos == window_start(secs, now),
{
    match Moment::from_unix(secs) {
        Some(m) => m,
        None => now,
    }
}

/// `entry` is the average of window `w`, `over` dividing a sum by a count; a
/// window without readings averages zero.
pub open spec fn is_average<D: Fn(Wide, u64) -> Wide>(
    over: D,
    w: WindowSum,
    now: Moment,
    entry: WindowAverageEntry,
) -> bool {
    &&& entry.window_start.nanos == window_start(w.start_secs, now)
    &&& if w.count > 0 {
        call_ensures(over, (w.sum_w, w.count), entry.avg_w)
    } else {
        entry.avg_w == wide_zero()
    }
}

fn averages<D: Fn(Wide, u64) -> Wide>(windows: &Vec<WindowSum>, now: Moment, over: &D) -> (out: Vec<
    WindowAverageEntry,
>)
    requires
        forall|s: Wide, n: u64| n > 0 ==> call_requires(*over, (s, n)),
    ensures
        out@.len() == windows@.len(),
        forall|i: int|
            0 <= i < out@.len() ==> is_average(*over, windows@[i], now, #[trigger] out@[i]),
{
    let mut out: Vec<WindowAverageEntry> = Vec::new();
    let mut i: usize = 0;
    while i < windows.len()
        invariant
            i <= windows.len(),
            out.len() == i,
            forall|s: Wide, n: u64| n > 0 ==> call_requires(*over, (s, n)),
            forall|k: int|
                0 <= k < i ==> is_average(*over, windows@[k], now, #[trigger] out@[k]),
        decreases windows.len() - i,
    {
        let w = windows[i];
        let start = start_of_window(w.start_secs, now);
        let avg_w: Wide = if w.count > 0 {
            over(w.sum_w, w.count)
        } else {
            wide_zero()
        };
        out.push(WindowAverageEntry { window_start: start, avg_w });
        i = i + 1;
    }
    out
}

pub open spec fn charges(items: Seq<PerBatteryReport>) -> Seq<Wide> {
    items.map_values(|b: PerBatteryReport| b.charge_wh)
}

pub open spec fn discharges(items: Seq<PerBatteryReport>) -> Seq<Wide> {
    items.map_values(|b: PerBatteryReport| b.discharge_wh)
}

pub open spec fn yields(items: Seq<PerPvReport>) -> Seq<Wide> {
    items.map_values(|p: PerPvReport| p.produced_wh)
}

/// The sum of `values`, `plus` being the addition.
fn sum<P: Fn(Wide, Wide) -> Wide>(values: &Vec<Wide>, plus: &P) -> (out: Wide)
    requires
        forall|a: Wide, b: Wide| call_requires(*plus, (a, b)),
    ensures
        folds(*plus, wide_zero(), values@, out),
{
    let mut total: Wide = wide_zero();
    let mut i: usize = 0;
    while i < values.len()
        invariant
            i <= values.len(),
            forall|a: Wide, b: Wide| call_requires(*plus, (a, b)),
            folds(*plus, wide_zero(), values@.subrange(0, i as int), total),
        decreases values.len() - i,
    {
        let next: Wide = plus(total, values[i]);
        proof {
            let seen = values@.subrange(0, i as int);
            folds_push(*plus, wide_zero(), seen, total, values@[i as int], next);
            assert(values@.subrange(0, i + 1) =~= seen.push(values@[i as int]));
        }
        total = next;
        i = i + 1;
    }
    assert(values@.subrange(0, values@.len() as int) =~= values@);
    total
}

/// Energy through each device and in total, in watt-hours.
#[derive(Debug)]
pub struct EnergyReport {
    pub per_battery: Vec<PerBatteryReport>,
    pub per_pv: Vec<PerPvReport>,
    pub charged_wh: Wide,
    pub discharged_wh: Wide,
    pub produced_wh: Wide,
}

/// Each total sums its column in order from zero, `plus` adding.
pub open spec fn totals_energy<P: Fn(Wide, Wide) -> Wide>(
    per_battery: Seq<PerBatteryReport>,
    per_pv: Seq<PerPvReport>,
    plus: P,
    charged_wh: Wide,
    discharged_wh: Wide,
    produced_wh: Wide,
) -> bool {
    &&& folds(plus, wide_zero(), charges(per_battery), charged_wh)
    &&& folds(plus, wide_zero(), discharges(per_battery), discharged_wh)
    &&& folds(plus, wide_zero(), yields(per_pv), produced_wh)
}

/// The devices as they are, and their totals.
pub fn energy_report<P: Fn(Wide, Wide) -> Wide>(
    batteries: &Vec<PerBatteryReport>,
    pvs: &Vec<PerPvReport>,
    plus: &P,
) -> (out: EnergyReport)
    requires
        forall|a: Wide, b: Wide| call_requires(*plus, (a, b)),
    ensures
        out.per_battery@ == batteries@,
        out.per_pv@ == pvs@,
        totals_energy(
            batteries@,
            pvs@,
            *plus,
            out.charged_wh,
            out.discharged_wh,
            out.produced_wh,
        ),
{
    let mut per_battery: Vec<PerBatteryReport> = Vec::new();
    let mut charged: Vec<Wide> = Vec::new();
    let mut discharged: Vec<Wide> = Vec::new();
    let mut i: usize = 0;
    while i < batteries.len()
        invariant
            i <= batteries.len(),
            per_battery@ == batteries@.subrange(0, i as int),
            charged@ == charges(batteries@).subrange(0, i as int),
            discharged@ == discharges(batteries@).subrange(0, i as int),
        decreases batteries.len() - i,
    {
        let b = batteries[i];
        per_battery.push(b);
        charged.push(b.charge_wh);
        discharged.push(b.discharge_wh);
        i = i + 1;
        assert(per_battery@ =~= batteries@.subrange(0, i as int));
        assert(charged@ =~= charges(batteries@).subrange(0, i as int));
        assert(discharged@ =~= discharges(batteries@).subrange(0, i as int));
    }
    assert(per_battery@ =~= batteries@);
    assert(charged@ =~= charges(batteries@));
    assert(discharged@ =~= discharges(batteries@));
    let mut per_pv: Vec<PerPvReport> = Vec::new();
    let mut produced: Vec<Wide> = Vec::new();
    let mut j: usize = 0;
    while j < pvs.len()
        invariant
            j <= pvs.len(),
            per_pv@ == pvs@.subrange(0, j as int),
            produced@ == yields(pvs@).subrange(0, j as int),
        decreases pvs.len() - j,
    {
        let p = pvs[j];
        per_pv.push(p);
        produced.push(p.produced_wh);
        j = j + 1;
        assert(per_pv@ =~= pvs@.subrange(0, j as int));
        assert(produced@ =~= yields(pvs@).subrange(0, j as int));
    }
    assert(per_pv@ =~= pvs@);
    assert(produced@ =~= yields(pvs@));
    EnergyReport {
        per_battery,
        per_pv,
        charged_wh: sum(&charged, plus),
        discharged_wh: sum(&discharged, plus),
        produced_wh: sum(&produced, plus),
    }
}

/// `out` reports the journal and the totals.
pub open spec fn reports<P: Fn(Wide, Wide) -> Wide, D: Fn(Wide, u64) -> Wide>(
    journal: ScenarioJournal,
    totals: ScenarioTotals,
    main_meter_id: Option<u64>,
    now: Moment,
    plus: P,
    over: D,
    out: ScenarioReport,
) -> bool {
    &&& out.scenario_elapsed.nanos == journal.spec_elapsed(now)
    &&& out.peak_main_meter_w == journal.peak_main_meter_active_w
    &&& out.main_meter_id == main_meter_id
    &&& totals_energy(
        totals.per_battery@,
        totals.per_pv@,
        plus,
        out.total_battery_charged_wh,
        out.total_battery_discharged_wh,
        out.total_pv_produced_wh,
    )
    &&& out.per_battery@ == totals.per_battery@
    &&& out.per_pv@ == totals.per_pv@
    &&& out.main_meter_window_averages@.len() == totals.windows@.len()
    &&& forall|i: int|
        0 <= i < totals.windows@.len() ==> is_average(
            over,
            totals.windows@[i],
            now,
            #[trigger] out.main_meter_window_averages@[i],
        )
    &&& out.checks@ == totals.checks@
    &&& out.checks_passed == totals.checks_passed
    &&& out.checks_failed == totals.checks_failed
}

/// The window averages are reported oldest first.
pub proof fn window_averages_ascend<P: Fn(Wide, Wide) -> Wide, D: Fn(Wide, u64) -> Wide>(
    journal: ScenarioJournal,
    totals: ScenarioTotals,
    main_meter_id: Option<u64>,
    now: Moment,
    plus: P,
    over: D,
    out: ScenarioReport,
)
    requires
        totals.wf(),
        reports(journal, totals, main_meter_id, now, plus, over, out),
    ensures
        forall|i: int, j: int|
            0 <= i < j < out.main_meter_window_averages@.len() ==> (
            #[trigger] out.main_meter_window_averages@[i]).window_start.nanos < (
            #[trigger] out.main_meter_window_averages@[j]).window_start.nanos,
{
    let list = out.main_meter_window_averages@;
    assert forall|i: int, j: int| 0 <= i < j < list.len() implies (
    #[trigger] list[i]).window_start.nanos < (#[trigger] list[j]).window_start.nanos by {
        assert(is_average(over, totals.windows@[i], now, list[i]));
        assert(is_average(over, totals.windows@[j], now, list[j]));
        assert(totals.windows@[i].start_secs < totals.windows@[j].start_secs);
    }
}

/// `stats` are the statistics of `socs`, `mean` averaging; absent where there
/// is no value.
pub open spec fn socs_reported<M: Fn(&Vec<Scalar>) -> Wide>(
    socs: Seq<Scalar>,
    mean: M,
    stats: Option<SocStats>,
) -> bool {
    match stats {
        None => socs.len() == 0,
        Some(s) => {
            &&& socs.len() > 0
            &&& exists|v: Vec<Scalar>| v@ == socs && #[trigger] call_ensures(
                mean,
                (&v,),
                s.mean_pct,
            )
            &&& s.median_pct == median_of(socs)
            &&& s.mode_pct is Some
            &&& is_mode(socs, s.mode_pct->0 as int)
        },
    }
}

/// Builds the report of a scenario from its journal, its totals and the
/// batteries' current state of charge. `plus` adds, `over` divides a sum by a
/// count, `mean` averages.
pub fn build_report<
    P: Fn(Wide, Wide) -> Wide,
    D: Fn(Wide, u64) -> Wide,
    M: Fn(&Vec<Scalar>) -> Wide,
>(
    journal: &ScenarioJournal,
    totals: &ScenarioTotals,
    main_meter_id: Option<u64>,
    socs: &Vec<Scalar>,
    now: Moment,
    plus: P,
    over: D,
    mean: M,
) -> (out: ScenarioReport)
    requires
        journal.wf(),
        now.in_calendar(),
        forall|a: Wide, b: Wide| call_requires(plus, (a, b)),
        forall|s: Wide, n: u64| n > 0 ==> call_requires(over, (s, n)),
        call_requires(mean, (socs,)),
    ensures
        reports(*journal, *totals, main_meter_id, now, plus, over, out),
        socs_reported(socs@, mean, out.soc_stats),
{
    let energy = energy_report(&totals.per_battery, &totals.per_pv, &plus);
    let mut checks: Vec<ScenarioCheck> = Vec::new();
    let mut k: usize = 0;
    while k < totals.checks.len()
        invariant
            k <= totals.checks.len(),
            checks@ == totals.checks@.subrange(0, k as int),
        decreases totals.checks.len() - k,
    {
        checks.push(totals.checks[k].clone());
        k = k + 1;
        assert(checks@ =~= totals.checks@.subrange(0, k as int));
    }
    assert(checks@ =~= totals.checks@);
    ScenarioReport {
        scenario_elapsed: journal.elapsed(now),
        peak_main_meter_w: journal.peak_main_meter_active_w(),
        main_meter_id,
        total_battery_charged_wh: energy.charged_wh,
        total_battery_discharged_wh: energy.discharged_wh,
        total_pv_produced_wh: energy.produced_wh,
        per_battery: energy.per_battery,
        per_pv: energy.per_pv,
        soc_stats: compute_soc_stats(socs, mean),
        main_meter_window_averages: averages(&totals.windows, now, &over),
        checks_passed: totals.checks_passed,
        checks_failed: totals.checks_failed,
        checks,
    }
}

/// Each total of a report sums the list that it reports.
pub proof fn totals_sum_their_lists<P: Fn(Wide, Wide) -> Wide, D: Fn(Wide, u64) -> Wide>(
    journal: ScenarioJournal,
    totals: ScenarioTotals,
    main_meter_id: Option<u64>,
    now: Moment,
    plus: P,
    over: D,
    out: ScenarioReport,
)
    requires
        reports(journal, totals, main_meter_id, now, plus, over, out),
    ensures
        folds(plus, wide_zero(), charges(out.per_battery@), out.total_battery_charged_wh),
        folds(plus, wide_zero(), discharges(out.per_battery@), out.total_battery_discharged_wh),
        folds(plus, wide_zero(), yields(out.per_pv@), out.total_pv_produced_wh),
{
}

/// `mean` gives one result for one list of values.
pub open spec fn is_single_mean<M: Fn(&Vec<Scalar>) -> Wide>(mean: M) -> bool {
    forall|u: Vec<Scalar>, v: Vec<Scalar>, x: Wide, y: Wide| #[trigger]
        call_ensures(mean, (&u,), x) && #[trigger] call_ensures(mean, (&v,), y) && u@ == v@
            ==> x == y
}

/// `over` gives one result for one sum and count.
pub open spec fn is_single_quotient<D: Fn(Wide, u64) -> Wide>(over: D) -> bool {
    forall|s: Wide, n: u64, x: Wide, y: Wide| #[trigger]
        call_ensures(over, (s, n), x) && #[trigger] call_ensures(over, (s, n), y) ==> x == y
}

/// Energies that are summed alike are alike.
pub(crate) proof fn energy_agrees<P: Fn(Wide, Wide) -> Wide>(
    per_battery: Seq<PerBatteryReport>,
    per_pv: Seq<PerPvReport>,
    plus: P,
    a: (Wide, Wide, Wide),
    b: (Wide, Wide, Wide),
)
    requires
        is_single_valued(plus),
        totals_energy(per_battery, per_pv, plus, a.0, a.1, a.2),
        totals_energy(per_battery, per_pv, plus, b.0, b.1, b.2),
    ensures
        a == b,
{
    folds_agree(plus, wide_zero(), charges(per_battery), a.0, b.0);
    folds_agree(plus, wide_zero(), discharges(per_battery), a.1, b.1);
    folds_agree(plus, wide_zero(), yields(per_pv), a.2, b.2);
}

/// The same values have the same statistics.
pub proof fn socs_agree<M: Fn(&Vec<Scalar>) -> Wide>(
    socs: Seq<Scalar>,
    mean: M,
    a: Option<SocStats>,
    b: Option<SocStats>,
)
    requires
        is_single_mean(mean),
        socs_reported(socs, mean, a),
        socs_reported(socs, mean, b),
    ensures
        a == b,
{
    if let (Some(x), Some(y)) = (a, b) {
        mode_is_unique(socs, x.mode_pct->0 as int, y.mode_pct->0 as int);
    }
}

/// The two reports say the same.
pub open spec fn same_report(a: ScenarioReport, b: ScenarioReport) -> bool {
    &&& a.scenario_elapsed == b.scenario_elapsed
    &&& a.peak_main_meter_w == b.peak_main_meter_w
    &&& a.main_meter_id == b.main_meter_id
    &&& a.total_battery_charged_wh == b.total_battery_charged_wh
    &&& a.total_battery_discharged_wh == b.total_battery_discharged_wh
    &&& a.total_pv_produced_wh == b.total_pv_produced_wh
    &&& a.per_battery@ == b.per_battery@
    &&& a.per_pv@ == b.per_pv@
    &&& a.soc_stats == b.soc_stats
    &&& a.main_meter_window_averages@ == b.main_meter_window_averages@
    &&& a.checks_passed == b.checks_passed
    &&& a.checks_failed == b.checks_failed
    &&& a.checks@ == b.checks@
}

/// One journal, one set of totals and one set of charges have one report, with
/// arithmetic that gives one result for the same operands.
pub proof fn reports_agree<
    P: Fn(Wide, Wide) -> Wide,
    D: Fn(Wide, u64) -> Wide,
    M: Fn(&Vec<Scalar>) -> Wide,
>(
    journal: ScenarioJournal,
    totals: ScenarioTotals,
    main_meter_id: Option<u64>,
    socs: Seq<Scalar>,
    now: Moment,
    plus: P,
    over: D,
    mean: M,
    a: ScenarioReport,
    b: ScenarioReport,
)
    requires
        is_single_valued(plus),
        is_single_quotient(over),
        is_single_mean(mean),
        reports(journal, totals, main_meter_id, now, plus, over, a),
        reports(journal, totals, main_meter_id, now, plus, over, b),
        socs_reported(socs, mean, a.soc_stats),
        socs_reported(socs, mean, b.soc_stats),
    ensures
        same_report(a, b),
{
    energy_agrees(
        totals.per_battery@,
        totals.per_pv@,
        plus,
        (a.total_battery_charged_wh, a.total_battery_discharged_wh, a.total_pv_produced_wh),
        (b.total_battery_charged_wh, b.total_battery_discharged_wh, b.total_pv_produced_wh),
    );
    socs_agree(socs, mean, a.soc_stats, b.soc_stats);
    let x = a.main_meter_window_averages@;
    let y = b.main_meter_window_averages@;
    assert forall|i: int| 0 <= i < x.len() implies x[i] == y[i] by {
        assert(is_average(over, totals.windows@[i], now, x[i]));
        assert(is_average(over, totals.windows@[i], now, y[i]));
    }
    assert(x =~= y);
}

/// A value between one half and one hundred counts for the whole percent
/// nearest to it, a half for the one above. Below that it counts for none, and
/// from one hundred on for one hundred.
pub proof fn percent_is_the_nearest(v: Scalar)
    ensures
        v.spec_is_nan() || v.spec_rank() < 0x3f00_0000 ==> percent_of(v) == 0,
        !v.spec_is_nan() && v.spec_rank() >= 0x42c8_0000 ==> percent_of(v) == 100,
        !v.spec_is_nan() && 0x3f00_0000 <= v.spec_rank() < 0x42c8_0000 ==> {
            let doubled = 2 * (v.bits as int % 0x80_0000 + 0x80_0000) * pow2(
                (v.bits as int / 0x80_0000 - 126) as nat,
            );
            (2 * percent_of(v) - 1) * 0x100_0000 <= doubled < (2 * percent_of(v) + 1) * 0x100_0000
        },
{
    lemma2_to64();
    assert(hundred().spec_rank() == 0x42c8_0000);
    let e = v.bits as int / 0x80_0000;
    let sig = v.bits as int % 0x80_0000 + 0x80_0000;
    if !v.spec_is_nan() && 0x3f00_0000 <= v.spec_rank() < 0x42c8_0000 {
        assert(126 <= e <= 133);
        let step = steps_per_one(e);
        let scale = pow2((e - 126) as nat) as int;
        assert(step * scale == 0x100_0000);
        let p = (2 * sig + step) / (2 * step);
        assert(p == percent_of(v));
        assert((2 * p - 1) * step <= 2 * sig < (2 * p + 1) * step) by (nonlinear_arith)
            requires
                step > 0,
                p == (2 * sig + step) / (2 * step),
        ;
        assert((2 * p - 1) * 0x100_0000 <= 2 * sig * scale < (2 * p + 1) * 0x100_0000)
            by (nonlinear_arith)
            requires
                (2 * p - 1) * step <= 2 * sig < (2 * p + 1) * step,
                step * scale == 0x100_0000,
                scale > 0,
        ;
    }
}

/// The tally of a percent is the number of values that count for it.
pub proof fn tally_counts_the_values(values: Seq<Scalar>, percent: int)
    ensures
        tally(values, percent) == values.filter(|v: Scalar| percent_of(v) == percent).len(),
    decreases values.len(),
{
    reveal(Seq::filter);
    if values.len() > 0 {
        tally_counts_the_values(values.drop_last(), percent);
    }
}

/// The mode is a percent that some value counts for; none is counted more
/// often, and none below it as often.
pub proof fn mode_is_counted_most(values: Seq<Scalar>, mode: int, percent: int)
    requires
        is_mode(values, mode),
        0 <= percent <= 100,
    ensures
        values.filter(|v: Scalar| percent_of(v) == percent).len() <= values.filter(
            |v: Scalar| percent_of(v) == mode,
        ).len(),
        percent < mode ==> values.filter(|v: Scalar| percent_of(v) == percent).len()
            < values.filter(|v: Scalar| percent_of(v) == mode).len(),
{
    tally_counts_the_values(values, percent);
    tally_counts_the_values(values, mode);
    assert(tally(values, percent) <= tally(values, mode));
}

/// The median stands in the middle of the values in ascending order, in the
/// lower half for an even count.
pub proof fn median_stands_in_the_middle(values: Seq<Scalar>)
    requires
        values.len() > 0,
    ensures
        exists|sorted: Seq<Scalar>|
            {
                &&& #[trigger] sorted.to_multiset() == values.to_multiset()
                &&& sorted.len() == values.len()
                &&& forall|i: int, j: int|
                    0 <= i <= j < sorted.len() ==> sorted[i].spec_rank() <= sorted[j].spec_rank()
                &&& values.len() % 2 == 1 ==> median_of(values) == sorted[values.len() as int / 2]
                &&& values.len() % 2 == 0 ==> median_of(values) == sorted[values.len() as int / 2
                    - 1]
            },
{
    let keys = ranks(values);
    let sorted = stably_sorted(values, keys);
    sorting_keeps_items(values, keys);
    stable_order_exists(keys);
    assert forall|i: int, j: int| 0 <= i <= j < sorted.len() implies sorted[i].spec_rank()
        <= sorted[j].spec_rank() by {
        sorted_keys_ascend(keys, i, j);
    }
}

/// With an addition that is exact, energy totals are the sums of the energies of
/// the devices: what the batteries took in, what they gave out and what the
/// inverters produced, each device counted once.
pub proof fn energy_adds_up<P: Fn(Wide, Wide) -> Wide>(
    per_battery: Seq<PerBatteryReport>,
    per_pv: Seq<PerPvReport>,
    plus: P,
    charged_wh: Wide,
    discharged_wh: Wide,
    produced_wh: Wide,
    value: spec_fn(Wide) -> int,
)
    requires
        totals_energy(per_battery, per_pv, plus, charged_wh, discharged_wh, produced_wh),
        value(wide_zero()) == 0,
        forall|a: Wide, b: Wide, r: Wide| #[trigger]
            call_ensures(plus, (a, b), r) ==> value(r) == value(a) + value(b),
    ensures
        value(charged_wh) == sum_of(per_battery, |b: PerBatteryReport| value(b.charge_wh)),
        value(discharged_wh) == sum_of(per_battery, |b: PerBatteryReport| value(b.discharge_wh)),
        value(produced_wh) == sum_of(per_pv, |p: PerPvReport| value(p.produced_wh)),
{
    exact_fold_adds_up(plus, wide_zero(), charges(per_battery), charged_wh, value);
    exact_fold_adds_up(plus, wide_zero(), discharges(per_battery), discharged_wh, value);
    exact_fold_adds_up(plus, wide_zero(), yields(per_pv), produced_wh, value);
    let taken = |b: PerBatteryReport| b.charge_wh;
    let given = |b: PerBatteryReport| b.discharge_wh;
    let made = |p: PerPvReport| p.produced_wh;
    column_sums(per_battery, taken, value);
    column_sums(per_battery, given, value);
    column_sums(per_pv, made, value);
    assert(charges(per_battery) =~= per_battery.map_values(taken));
    assert(discharges(per_battery) =~= per_battery.map_values(given));
    assert(yields(per_pv) =~= per_pv.map_values(made));
    same_sums(
        per_battery,
        |b: PerBatteryReport| value(taken(b)),
        |b: PerBatteryReport| value(b.charge_wh),
    );
    same_sums(
        per_battery,
        |b: PerBatteryReport| value(given(b)),
        |b: PerBatteryReport| value(b.discharge_wh),
    );
    same_sums(per_pv, |p: PerPvReport| value(made(p)), |p: PerPvReport| value(p.produced_wh));
}

/// A report shows the devices as they are, and with an addition that is exact
/// its totals are the sums of their energies.
pub proof fn totals_add_up<P: Fn(Wide, Wide) -> Wide, D: Fn(Wide, u64) -> Wide>(
    journal: ScenarioJournal,
    totals: ScenarioTotals,
    main_meter_id: Option<u64>,
    now: Moment,
    plus: P,
    over: D,
    out: ScenarioReport,
    value: spec_fn(Wide) -> int,
)
    requires
        reports(journal, totals, main_meter_id, now, plus, over, out),
        value(wide_zero()) == 0,
        forall|a: Wide, b: Wide, r: Wide| #[trigger]
            call_ensures(plus, (a, b), r) ==> value(r) == value(a) + value(b),
    ensures
        value(out.total_battery_charged_wh) == sum_of(
            out.per_battery@,
            |b: PerBatteryReport| value(b.charge_wh),
        ),
        value(out.total_battery_discharged_wh) == sum_of(
            out.per_battery@,
            |b: PerBatteryReport| value(b.discharge_wh),
        ),
        value(out.total_pv_produced_wh) == sum_of(
            out.per_pv@,
            |p: PerPvReport| value(p.produced_wh),
        ),
        out.per_battery@ == totals.per_battery@,
        out.per_pv@ == totals.per_pv@,
        out.peak_main_meter_w == journal.peak_main_meter_active_w,
        out.checks@ == totals.checks@,
        out.checks_passed == totals.checks_passed,
        out.checks_failed == totals.checks_failed,
{
    energy_adds_up(
        totals.per_battery@,
        totals.per_pv@,
        plus,
        out.total_battery_charged_wh,
        out.total_battery_discharged_wh,
        out.total_pv_produced_wh,
        value,
    );
}

proof fn column_sums<T>(items: Seq<T>, column: spec_fn(T) -> Wide, value: spec_fn(Wide) -> int)
    ensures
        sum_of(items.map_values(column), value) == sum_of(items, |t: T| value(column(t))),
    decreases items.len(),
{
    if items.len() > 0 {
        column_sums(items.drop_last(), column, value);
        assert(items.map_values(column).drop_last() =~= items.drop_last().map_values(column));
    }
}

proof fn same_sums<T>(items: Seq<T>, a: spec_fn(T) -> int, b: spec_fn(T) -> int)
    requires
        forall|t: T| #[trigger] a(t) == b(t),
    ensures
        sum_of(items, a) == sum_of(items, b),
    decreases items.len(),
{
    if items.len() > 0 {
        same_sums(items.drop_last(), a, b);
    }
}

/// With a division that is exact, a window's average times its count is its
/// sum, and the window is dated by the second it starts at. A window without
/// readings averages zero.
pub proof fn averages_divide_the_sums<P: Fn(Wide, Wide) -> Wide, D: Fn(Wide, u64) -> Wide>(
    journal: ScenarioJournal,
    totals: ScenarioTotals,
    main_meter_id: Option<u64>,
    now: Moment,
    plus: P,
    over: D,
    out: ScenarioReport,
    value: spec_fn(Wide) -> int,
    i: int,
)
    requires
        totals.wf(),
        reports(journal, totals, main_meter_id, now, plus, over, out),
        value(wide_zero()) == 0,
        forall|s: Wide, n: u64, r: Wide| #[trigger]
            call_ensures(over, (s, n), r) && n > 0 ==> value(r) * n == value(s),
        0 <= i < totals.windows@.len(),
    ensures
        out.main_meter_window_averages@.len() == totals.windows@.len(),
        ({
            let w = totals.windows@[i];
            let entry = out.main_meter_window_averages@[i];
            &&& w.count > 0 ==> value(entry.avg_w) * w.count == value(w.sum_w)
            &&& w.count == 0 ==> value(entry.avg_w) == 0
            &&& entry.window_start.nanos == w.start_secs * 1_000_000_000
        }),
{
    assert(is_average(over, totals.windows@[i], now, out.main_meter_window_averages@[i]));
}

/// A summary tells where the journal stands: its ids run from the earliest
/// event that it still holds up to the next, and it counts time from its start.
pub proof fn summary_matches_the_journal(
    journal: ScenarioJournal,
    now: Moment,
    out: ScenarioSummary,
)
    requires
        is_summary(journal, now, out),
    ensures
        out.earliest_event_id + out.event_count == out.next_event_id,
        out.event_count == journal.events@.len(),
        out.next_event_id == journal.next_id,
        out.started_at == journal.started_at,
        out.ended_at == journal.ended_at,
        out.name == journal.name,
        journal.started_at is None ==> out.elapsed.nanos == 0,
        journal.started_at matches Some(s) ==> (journal.ended_at matches Some(e) ==> (e.nanos
            >= s.nanos ==> out.elapsed.nanos == e.nanos - s.nanos)),
{
}

/// A window starts at its second; where the calendar has none, it is dated now.
pub proof fn windows_are_dated_by_their_second(secs: i64, now: Moment)
    ensures
        FIRST_SECOND <= secs <= LAST_SECOND ==> window_start(secs, now) == secs * 1_000_000_000,
        secs < FIRST_SECOND || secs > LAST_SECOND ==> window_start(secs, now) == now.nanos,
{
}

} // verus!
