//! Per-component telemetry history: one bounded ring of samples per metric
//! that the component publishes.

use crate::bounds::Bounds;
use crate::component::Telemetry;
use crate::scalar::Scalar;
use crate::text::same_text;
use crate::time::Moment;
use std::collections::{BTreeMap, VecDeque};
use vstd::prelude::*;

verus! {

broadcast use vstd::std_specs::btree::group_btree_axioms;

/// A metric tracked over time.
#[derive(Clone, Copy, Debug, PartialEq, Eq, Structural)]
pub enum Metric {
    ActivePowerW,
    ReactivePowerVar,
    FrequencyHz,
    SocPct,
    DcPowerW,
    ActivePowerLowerBoundW,
    ActivePowerUpperBoundW,
    ReactivePowerLowerBoundVar,
    ReactivePowerUpperBoundVar,
}

impl Metric {
    pub open spec fn spec_name(self) -> Seq<char> {
        match self {
            Metric::ActivePowerW => "active_power_w"@,
            Metric::ReactivePowerVar => "reactive_power_var"@,
            Metric::FrequencyHz => "frequency_hz"@,
            Metric::SocPct => "soc_pct"@,
            Metric::DcPowerW => "dc_power_w"@,
            Metric::ActivePowerLowerBoundW => "active_power_lower_bound_w"@,
            Metric::ActivePowerUpperBoundW => "active_power_upper_bound_w"@,
            Metric::ReactivePowerLowerBoundVar => "reactive_power_lower_bound_var"@,
            Metric::ReactivePowerUpperBoundVar => "reactive_power_upper_bound_var"@,
        }
    }

    pub fn as_str(self) -> (out: &'static str)
        ensures
            out@ == self.spec_name(),
    {
        match self {
            Metric::ActivePowerW => "active_power_w",
            Metric::ReactivePowerVar => "reactive_power_var",
            Metric::FrequencyHz => "frequency_hz",
            Metric::SocPct => "soc_pct",
            Metric::DcPowerW => "dc_power_w",
            Metric::ActivePowerLowerBoundW => "active_power_lower_bound_w",
            Metric::ActivePowerUpperBoundW => "active_power_upper_bound_w",
            Metric::ReactivePowerLowerBoundVar => "reactive_power_lower_bound_var",
            Metric::ReactivePowerUpperBoundVar => "reactive_power_upper_bound_var",
        }
    }

    /// The position of the metric among all metrics.
    pub open spec fn spec_index(self) -> u64 {
        match self {
            Metric::ActivePowerW => 0,
            Metric::ReactivePowerVar => 1,
            Metric::FrequencyHz => 2,
            Metric::SocPct => 3,
            Metric::DcPowerW => 4,
            Metric::ActivePowerLowerBoundW => 5,
            Metric::ActivePowerUpperBoundW => 6,
            Metric::ReactivePowerLowerBoundVar => 7,
            Metric::ReactivePowerUpperBoundVar => 8,
        }
    }

    fn index(self) -> (out: u64)
        ensures
            out == self.spec_index(),
    {
        match self {
            Metric::ActivePowerW => 0,
            Metric::ReactivePowerVar => 1,
            Metric::FrequencyHz => 2,
            Metric::SocPct => 3,
            Metric::DcPowerW => 4,
            Metric::ActivePowerLowerBoundW => 5,
            Metric::ActivePowerUpperBoundW => 6,
            Metric::ReactivePowerLowerBoundVar => 7,
            Metric::ReactivePowerUpperBoundVar => 8,
        }
    }

    pub open spec fn spec_at(index: u64) -> Option<Metric> {
        match index {
            0 => Some(Metric::ActivePowerW),
            1 => Some(Metric::ReactivePowerVar),
            2 => Some(Metric::FrequencyHz),
            3 => Some(Metric::SocPct),
            4 => Some(Metric::DcPowerW),
            5 => Some(Metric::ActivePowerLowerBoundW),
            6 => Some(Metric::ActivePowerUpperBoundW),
            7 => Some(Metric::ReactivePowerLowerBoundVar),
            8 => Some(Metric::ReactivePowerUpperBoundVar),
            _ => None,
        }
    }

    fn at(index: u64) -> (out: Option<Metric>)
        ensures
            out == Self::spec_at(index),
    {
        match index {
            0 => Some(Metric::ActivePowerW),
            1 => Some(Metric::ReactivePowerVar),
            2 => Some(Metric::FrequencyHz),
            3 => Some(Metric::SocPct),
            4 => Some(Metric::DcPowerW),
            5 => Some(Metric::ActivePowerLowerBoundW),
            6 => Some(Metric::ActivePowerUpperBoundW),
            7 => Some(Metric::ReactivePowerLowerBoundVar),
            8 => Some(Metric::ReactivePowerUpperBoundVar),
            _ => None,
        }
    }

    /// The metric of that name, if any.
    pub fn parse(name: &str) -> (out: Option<Metric>)
        ensures
            out matches Some(m) ==> name@ == m.spec_name(),
            out is None ==> forall|m: Metric| name@ != #[trigger] m.spec_name(),
    {
        let mut i: u64 = 0;
        while i < 9
            invariant
                i <= 9,
                forall|k: u64|
                    0 <= k < i ==> (#[trigger] Self::spec_at(k) matches Some(m) && name@
                        != m.spec_name()),
            decreases 9 - i,
        {
            if let Some(m) = Self::at(i) {
                if same_text(name, m.as_str()) {
                    return Some(m);
                }
            }
            i = i + 1;
        }
        assert forall|m: Metric| name@ != #[trigger] m.spec_name() by {
            assert(Self::spec_at(m.spec_index()) == Some(m));
        }
        None
    }

    pub open spec fn spec_quantity(self) -> Seq<char> {
        match self {
            Metric::FrequencyHz => "Frequency"@,
            Metric::SocPct => "Percentage"@,
            Metric::ReactivePowerVar => "ReactivePower"@,
            Metric::ReactivePowerLowerBoundVar => "ReactivePower"@,
            Metric::ReactivePowerUpperBoundVar => "ReactivePower"@,
            _ => "Power"@,
        }
    }

    /// The physical quantity that the metric measures.
    pub fn quantity(self) -> (out: &'static str)
        ensures
            out@ == self.spec_quantity(),
    {
        match self {
            Metric::FrequencyHz => "Frequency",
            Metric::SocPct => "Percentage",
            Metric::ReactivePowerVar => "ReactivePower",
            Metric::ReactivePowerLowerBoundVar => "ReactivePower",
            Metric::ReactivePowerUpperBoundVar => "ReactivePower",
            _ => "Power",
        }
    }

    pub open spec fn spec_unit(self) -> Seq<char> {
        match self {
            Metric::FrequencyHz => "Hz"@,
            Metric::SocPct => "%"@,
            Metric::ReactivePowerVar => "var"@,
            Metric::ReactivePowerLowerBoundVar => "var"@,
            Metric::ReactivePowerUpperBoundVar => "var"@,
            _ => "W"@,
        }
    }

    /// The base unit of the metric's samples.
    pub fn unit(self) -> (out: &'static str)
        ensures
            out@ == self.spec_unit(),
    {
        match self {
            Metric::FrequencyHz => "Hz",
            Metric::SocPct => "%",
            Metric::ReactivePowerVar => "var",
            Metric::ReactivePowerLowerBoundVar => "var",
            Metric::ReactivePowerUpperBoundVar => "var",
            _ => "W",
        }
    }
}

/// No two metrics have the same name, so a name denotes at most one metric.
pub proof fn metric_names_are_distinct(a: Metric, b: Metric)
    requires
        a.spec_name() == b.spec_name(),
    ensures
        a == b,
{
    reveal_strlit("active_power_w");
    reveal_strlit("reactive_power_var");
    reveal_strlit("frequency_hz");
    reveal_strlit("soc_pct");
    reveal_strlit("dc_power_w");
    reveal_strlit("active_power_lower_bound_w");
    reveal_strlit("active_power_upper_bound_w");
    reveal_strlit("reactive_power_lower_bound_var");
    reveal_strlit("reactive_power_upper_bound_var");
    assert("active_power_w"@.len() == 14);
    assert("reactive_power_var"@.len() == 18);
    assert("frequency_hz"@.len() == 12);
    assert("soc_pct"@.len() == 7);
    assert("dc_power_w"@.len() == 10);
    assert("active_power_lower_bound_w"@.len() == 26);
    assert("active_power_upper_bound_w"@.len() == 26);
    assert("reactive_power_lower_bound_var"@.len() == 30);
    assert("reactive_power_upper_bound_var"@.len() == 30);
    assert("active_power_lower_bound_w"@[13] != "active_power_upper_bound_w"@[13]);
    assert("reactive_power_lower_bound_var"@[15] != "reactive_power_upper_bound_var"@[15]);
}

/// One recorded value.
#[derive(Clone, Copy, Debug, PartialEq, Eq, Structural)]
pub struct Sample {
    pub ts: Moment,
    pub value: Scalar,
}

/// A bounded ring of samples of one metric.
#[derive(Debug)]
pub struct History {
    pub capacity: usize,
    pub ring: VecDeque<Sample>,
}

/// `ring` with `item` behind its newest entry, the oldest one making room
/// when the ring is full. A ring without capacity takes nothing.
pub open spec fn ring_push<T>(ring: Seq<T>, capacity: nat, item: T) -> Seq<T> {
    if capacity == 0 {
        ring
    } else if ring.len() == capacity {
        ring.drop_first().push(item)
    } else {
        ring.push(item)
    }
}

/// A ring never outgrows its capacity, and where it has any, its newest entry
/// is the one pushed last.
pub proof fn ring_stays_bounded<T>(ring: Seq<T>, capacity: nat, item: T)
    requires
        ring.len() <= capacity,
    ensures
        ring_push(ring, capacity, item).len() <= capacity,
        0 < capacity ==> ring_push(ring, capacity, item).last() == item,
        ring.len() < capacity ==> ring_push(ring, capacity, item).len() == ring.len() + 1,
{
}

/// Samples ascend in time.
pub open spec fn time_ordered(ring: Seq<Sample>) -> bool {
    forall|i: int, j: int| 0 <= i <= j < ring.len() ==> ring[i].ts.nanos <= ring[j].ts.nanos
}

/// Every sample was taken within the calendar.
pub open spec fn all_dated(ring: Seq<Sample>) -> bool {
    forall|i: int| 0 <= i < ring.len() ==> (#[trigger] ring[i]).ts.in_calendar()
}

/// `cut` separates what is older than `since` from the rest.
pub open spec fn is_cut(ring: Seq<Sample>, since: Moment, cut: int) -> bool {
    &&& 0 <= cut <= ring.len()
    &&& forall|i: int| 0 <= i < cut ==> (#[trigger] ring[i]).ts.nanos < since.nanos
    &&& forall|i: int| cut <= i < ring.len() ==> (#[trigger] ring[i]).ts.nanos >= since.nanos
}

/// `out` is a suffix of `ring`; where the ring ascends in time, exactly its
/// samples at or after `since`.
pub open spec fn is_sample_window(ring: Seq<Sample>, since: Moment, out: Seq<Sample>) -> bool {
    exists|cut: int|
        0 <= cut <= ring.len() && out == #[trigger] ring.skip(cut) && (time_ordered(ring)
            ==> is_cut(ring, since, cut))
}

impl View for History {
    type V = Seq<Sample>;

    open spec fn view(&self) -> Seq<Sample> {
        self.ring@
    }
}

impl History {
    pub fn new(capacity: usize) -> (out: Self)
        ensures
            out.capacity == capacity,
            out@ == Seq::<Sample>::empty(),
    {
        History { capacity, ring: VecDeque::new() }
    }

    pub fn push(&mut self, ts: Moment, value: Scalar)
        ensures
            final(self).capacity == old(self).capacity,
            final(self)@ == ring_push(
                old(self)@,
                old(self).capacity as nat,
                Sample { ts, value },
            ),
    {
        if self.capacity == 0 {
            return;
        }
        let ghost before = self.ring@;
        if self.ring.len() == self.capacity {
            let _ = self.ring.pop_front();
            assert(self.ring@ =~= before.drop_first());
        }
        self.ring.push_back(Sample { ts, value });
    }

    pub fn len(&self) -> (out: usize)
        ensures
            out == self@.len(),
    {
        self.ring.len()
    }

    pub fn is_empty(&self) -> (out: bool)
        ensures
            out == (self@.len() == 0),
    {
        self.ring.len() == 0
    }

    /// The samples at or after `since`, oldest first. The ring is searched as
    /// one whose samples ascend in time; where they do not, the result is
    /// still a suffix of the ring.
    pub fn iter_window(&self, since: Moment) -> (out: Vec<Sample>)
        ensures
            is_sample_window(self@, since, out@),
    {
        let mut lo: usize = 0;
        let mut hi: usize = self.ring.len();
        while lo < hi
            invariant
                0 <= lo <= hi <= self@.len(),
                time_ordered(self@) ==> forall|i: int|
                    0 <= i < lo ==> (#[trigger] self@[i]).ts.nanos < since.nanos,
                time_ordered(self@) ==> forall|i: int|
                    hi <= i < self@.len() ==> (#[trigger] self@[i]).ts.nanos >= since.nanos,
            decreases hi - lo,
        {
            let mid: usize = lo + (hi - lo) / 2;
            if self.ring[mid].ts.nanos < since.nanos {
                assert(self@[mid as int].ts.nanos < since.nanos);
                lo = mid + 1;
            } else {
                assert(self@[mid as int].ts.nanos >= since.nanos);
                hi = mid;
            }
        }
        let out = self.tail_from(lo);
        assert(time_ordered(self@) ==> is_cut(self@, since, lo as int));
        assert(out@ == self@.skip(lo as int));
        out
    }

    /// Every sample, oldest first.
    pub fn iter(&self) -> (out: Vec<Sample>)
        ensures
            out@ == self@,
    {
        let out = self.tail_from(0);
        assert(self@.skip(0) =~= self@);
        out
    }

    fn tail_from(&self, from: usize) -> (out: Vec<Sample>)
        requires
            from <= self@.len(),
        ensures
            out@ == self@.skip(from as int),
    {
        let mut out: Vec<Sample> = Vec::new();
        let mut i: usize = from;
        while i < self.ring.len()
            invariant
                from <= i <= self@.len(),
                out@ == self@.subrange(from as int, i as int),
            decreases self@.len() - i,
        {
            out.push(self.ring[i]);
            i = i + 1;
            assert(out@ =~= self@.subrange(from as int, i as int));
        }
        assert(out@ =~= self@.skip(from as int));
        out
    }
}

/// A time-ordered ring's window is exactly its samples at or after `since`.
pub proof fn window_is_filter(ring: Seq<Sample>, since: Moment, cut: int)
    requires
        is_cut(ring, since, cut),
    ensures
        ring.skip(cut) == ring.filter(|s: Sample| s.ts.nanos >= since.nanos),
    decreases ring.len(),
{
    let keep = |s: Sample| s.ts.nanos >= since.nanos;
    reveal(Seq::filter);
    if ring.len() > 0 {
        let init = ring.drop_last();
        if cut == ring.len() {
            assert forall|i: int| 0 <= i < cut - 1 implies (#[trigger] init[i]).ts.nanos
                < since.nanos by {
                assert(init[i] == ring[i]);
            }
            window_is_filter(init, since, cut - 1);
            assert(ring[cut - 1].ts.nanos < since.nanos);
            assert(ring.skip(cut) =~= init.skip(cut - 1));
        } else {
            assert forall|i: int| 0 <= i < cut implies (#[trigger] init[i]).ts.nanos
                < since.nanos by {
                assert(init[i] == ring[i]);
            }
            assert forall|i: int| cut <= i < init.len() implies (#[trigger] init[i]).ts.nanos
                >= since.nanos by {
                assert(init[i] == ring[i]);
            }
            window_is_filter(init, since, cut);
            assert(ring[ring.len() - 1].ts.nanos >= since.nanos);
            assert(ring.skip(cut) =~= init.skip(cut).push(ring.last()));
        }
    }
}

/// The histories of one component: a ring for each metric that it has
/// published.
#[derive(Debug)]
pub struct ComponentHistory {
    pub capacity: usize,
    pub series: BTreeMap<u64, History>,
}

/// The value of `metric` that a snapshot contributes to the charts. The
/// active-power bounds chart a single band, that of the first interval.
pub open spec fn charted(snapshot: Telemetry, metric: Metric) -> Option<Scalar> {
    match metric {
        Metric::ActivePowerW => snapshot.active_power_w,
        Metric::ReactivePowerVar => snapshot.reactive_power_var,
        Metric::FrequencyHz => snapshot.frequency_hz,
        Metric::SocPct => snapshot.soc_pct,
        Metric::DcPowerW => None,
        Metric::ActivePowerLowerBoundW => match snapshot.active_power_bounds {
            Some(b) if b@.len() > 0 => b@[0].lower,
            _ => None,
        },
        Metric::ActivePowerUpperBoundW => match snapshot.active_power_bounds {
            Some(b) if b@.len() > 0 => b@[0].upper,
            _ => None,
        },
        Metric::ReactivePowerLowerBoundVar => match snapshot.reactive_power_bounds {
            Some((l, _)) => Some(l),
            None => None,
        },
        Metric::ReactivePowerUpperBoundVar => match snapshot.reactive_power_bounds {
            Some((_, u)) => Some(u),
            None => None,
        },
    }
}

pub open spec fn noted(
    pairs: Seq<(Metric, Scalar)>,
    metric: Metric,
    value: Option<Scalar>,
) -> Seq<(Metric, Scalar)> {
    match value {
        Some(v) => pairs.push((metric, v)),
        None => pairs,
    }
}

/// What a snapshot contributes, in recording order.
pub open spec fn contributions(snapshot: Telemetry) -> Seq<(Metric, Scalar)> {
    let m0 = Metric::ActivePowerW;
    let m1 = Metric::ReactivePowerVar;
    let m2 = Metric::FrequencyHz;
    let m3 = Metric::SocPct;
    let m4 = Metric::ActivePowerLowerBoundW;
    let m5 = Metric::ActivePowerUpperBoundW;
    let m6 = Metric::ReactivePowerLowerBoundVar;
    let m7 = Metric::ReactivePowerUpperBoundVar;
    let s0 = noted(Seq::empty(), m0, charted(snapshot, m0));
    let s1 = noted(s0, m1, charted(snapshot, m1));
    let s2 = noted(s1, m2, charted(snapshot, m2));
    let s3 = noted(s2, m3, charted(snapshot, m3));
    let s4 = noted(s3, m4, charted(snapshot, m4));
    let s5 = noted(s4, m5, charted(snapshot, m5));
    let s6 = noted(s5, m6, charted(snapshot, m6));
    noted(s6, m7, charted(snapshot, m7))
}

impl ComponentHistory {
    /// Every ring has the component's capacity, stands under a metric and
    /// holds samples of the calendar.
    pub open spec fn wf(self) -> bool {
        forall|k: u64| #[trigger]
            self.series@.contains_key(k) ==> self.series@[k].capacity == self.capacity
                && Metric::spec_at(k) is Some && all_dated(self.series@[k]@)
    }

    /// `metric` has been recorded.
    pub open spec fn has(self, metric: Metric) -> bool {
        self.series@.contains_key(metric.spec_index())
    }

    /// The samples of `metric`; none where it was never recorded.
    pub open spec fn ring(self, metric: Metric) -> Seq<Sample> {
        if self.has(metric) {
            self.series@[metric.spec_index()]@
        } else {
            Seq::empty()
        }
    }

    /// `self` is `before` with `value` recorded for `metric`, where there is
    /// one.
    pub open spec fn records(
        self,
        before: Self,
        ts: Moment,
        metric: Metric,
        value: Option<Scalar>,
    ) -> bool {
        &&& self.capacity == before.capacity
        &&& forall|m: Metric| #[trigger]
            self.has(m) == (before.has(m) || (m == metric && value is Some))
        &&& forall|m: Metric| #[trigger]
            self.ring(m) == (if m == metric && value is Some {
                ring_push(
                    before.ring(m),
                    before.capacity as nat,
                    Sample { ts, value: value->0 },
                )
            } else {
                before.ring(m)
            })
    }

    pub fn new(capacity: usize) -> (out: Self)
        ensures
            out.wf(),
            out.capacity == capacity,
            forall|m: Metric| !#[trigger] out.has(m),
    {
        ComponentHistory { capacity, series: BTreeMap::new() }
    }

    fn push(&mut self, ts: Moment, metric: Metric, value: Scalar)
        requires
            old(self).wf(),
            ts.in_calendar(),
        ensures
            final(self).wf(),
            final(self).records(*old(self), ts, metric, Some(value)),
    {
        let key: u64 = metric.index();
        let mut ring = match self.series.remove(&key) {
            Some(h) => h,
            None => History::new(self.capacity),
        };
        ring.push(ts, value);
        self.series.insert(key, ring);
        assert forall|m: Metric| #[trigger] self.ring(m) == (if m == metric {
            ring_push(
                old(self).ring(m),
                old(self).capacity as nat,
                Sample { ts, value },
            )
        } else {
            old(self).ring(m)
        }) by {
            if m != metric {
                assert(m.spec_index() != key);
            }
        }
        assert forall|m: Metric| #[trigger] self.has(m) == (old(self).has(m) || m == metric) by {
            if m != metric {
                assert(m.spec_index() != key);
            }
        }
        assert(Metric::spec_at(key) == Some(metric));
    }

    fn record(
        &mut self,
        ts: Moment,
        metric: Metric,
        value: Option<Scalar>,
        pushed: &mut Vec<(Metric, Scalar)>,
    )
        requires
            old(self).wf(),
            ts.in_calendar(),
        ensures
            final(self).wf(),
            final(self).records(*old(self), ts, metric, value),
            final(pushed)@ == noted(old(pushed)@, metric, value),
    {
        if let Some(v) = value {
            self.push(ts, metric, v);
            pushed.push((metric, v));
        }
    }

    /// Records everything in `snapshot` that has a chart and returns what was
    /// recorded.
    pub fn push_snapshot(&mut self, ts: Moment, snapshot: &Telemetry) -> (out: Vec<
        (Metric, Scalar),
    >)
        requires
            old(self).wf(),
            ts.in_calendar(),
        ensures
            final(self).wf(),
            final(self).capacity == old(self).capacity,
            out@ == contributions(*snapshot),
            forall|m: Metric| #[trigger]
                final(self).has(m) == (old(self).has(m) || charted(*snapshot, m) is Some),
            forall|m: Metric| #[trigger]
                final(self).ring(m) == (match charted(*snapshot, m) {
                    Some(v) => ring_push(
                        old(self).ring(m),
                        old(self).capacity as nat,
                        Sample { ts, value: v },
                    ),
                    None => old(self).ring(m),
                }),
    {
        let mut pushed: Vec<(Metric, Scalar)> = Vec::new();
        let (lower, upper) = match &snapshot.active_power_bounds {
            Some(b) => if b.0.len() > 0 {
                (b.0[0].lower, b.0[0].upper)
            } else {
                (None, None)
            },
            None => (None, None),
        };
        let (reactive_lower, reactive_upper) = match snapshot.reactive_power_bounds {
            Some((l, u)) => (Some(l), Some(u)),
            None => (None, None),
        };
        self.record(ts, Metric::ActivePowerW, snapshot.active_power_w, &mut pushed);
        self.record(ts, Metric::ReactivePowerVar, snapshot.reactive_power_var, &mut pushed);
        self.record(ts, Metric::FrequencyHz, snapshot.frequency_hz, &mut pushed);
        self.record(ts, Metric::SocPct, snapshot.soc_pct, &mut pushed);
        self.record(ts, Metric::ActivePowerLowerBoundW, lower, &mut pushed);
        self.record(ts, Metric::ActivePowerUpperBoundW, upper, &mut pushed);
        self.record(ts, Metric::ReactivePowerLowerBoundVar, reactive_lower, &mut pushed);
        self.record(ts, Metric::ReactivePowerUpperBoundVar, reactive_upper, &mut pushed);
        pushed
    }

    pub fn get(&self, metric: Metric) -> (out: Option<&History>)
        ensures
            out is Some == self.has(metric),
            out matches Some(h) ==> h@ == self.ring(metric),
            self.wf() ==> (out matches Some(h) ==> h.capacity == self.capacity),
    {
        let key: u64 = metric.index();
        self.series.get(&key)
    }

    /// The recorded metrics.
    pub fn metrics(&self) -> (out: Vec<Metric>)
        ensures
            forall|m: Metric| #[trigger] out@.contains(m) == self.has(m),
            out@.no_duplicates(),
    {
        let mut out: Vec<Metric> = Vec::new();
        let mut i: u64 = 0;
        while i < 9
            invariant
                i <= 9,
                forall|m: Metric| #[trigger]
                    out@.contains(m) == (self.has(m) && m.spec_index() < i),
                out@.no_duplicates(),
            decreases 9 - i,
        {
            if let Some(m) = Metric::at(i) {
                assert(m.spec_index() == i);
                if self.series.contains_key(&i) {
                    let ghost before = out@;
                    assert(!before.contains(m));
                    out.push(m);
                    assert forall|x: Metric| #[trigger] out@.contains(x) == (self.has(x)
                        && x.spec_index() < i + 1) by {
                        if x == m {
                            assert(out@[before.len() as int] == m);
                        } else {
                            assert(x.spec_index() != i);
                            if before.contains(x) {
                                let p = choose|p: int| 0 <= p < before.len() && before[p] == x;
                                assert(out@[p] == x);
                            }
                            if out@.contains(x) {
                                let p = choose|p: int| 0 <= p < out@.len() && out@[p] == x;
                                assert(before[p] == x);
                            }
                        }
                    }
                } else {
                    assert forall|x: Metric| #[trigger] out@.contains(x) == (self.has(x)
                        && x.spec_index() < i + 1) by {
                        if x.spec_index() == i {
                            assert(x == m);
                        }
                    }
                }
            }
            i = i + 1;
        }
        out
    }
}

/// A push keeps every entry in its place relative to the newest; only the
/// oldest goes, and only where the ring was full.
pub proof fn push_keeps_the_newest<T>(ring: Seq<T>, capacity: nat, item: T)
    requires
        ring.len() <= capacity,
        0 < capacity,
    ensures
        ({
            let after = ring_push(ring, capacity, item);
            &&& after.len() == if ring.len() == capacity {
                ring.len()
            } else {
                ring.len() + 1
            }
            &&& after[after.len() - 1] == item
            &&& forall|back: int|
                1 <= back < after.len() ==> #[trigger] after[after.len() - 1 - back]
                    == ring[ring.len() - back]
        }),
{
}

/// A window of a time-ordered ring is its end from `since` on, `since` itself
/// counted in: nothing in it is older, and nothing left out is as young.
pub proof fn window_holds_the_recent_samples(
    ring: Seq<Sample>,
    since: Moment,
    window: Seq<Sample>,
)
    requires
        time_ordered(ring),
        is_sample_window(ring, since, window),
    ensures
        window.len() <= ring.len(),
        forall|i: int|
            0 <= i < window.len() ==> (#[trigger] window[i]).ts.nanos >= since.nanos && window[i]
                == ring[ring.len() - window.len() + i],
        forall|i: int|
            0 <= i < ring.len() - window.len() ==> (#[trigger] ring[i]).ts.nanos < since.nanos,
{
    let cut = choose|cut: int|
        0 <= cut <= ring.len() && window == #[trigger] ring.skip(cut) && is_cut(ring, since, cut);
    assert(window.len() == ring.len() - cut);
}

/// Metrics of one quantity share its unit, and a bound is measured as what it
/// bounds.
pub proof fn bounds_are_measured_as_what_they_bound(a: Metric, b: Metric)
    ensures
        a.spec_quantity() == b.spec_quantity() <==> a.spec_unit() == b.spec_unit(),
        Metric::ActivePowerLowerBoundW.spec_unit() == Metric::ActivePowerW.spec_unit(),
        Metric::ActivePowerUpperBoundW.spec_unit() == Metric::ActivePowerW.spec_unit(),
        Metric::DcPowerW.spec_unit() == Metric::ActivePowerW.spec_unit(),
        Metric::ReactivePowerLowerBoundVar.spec_unit() == Metric::ReactivePowerVar.spec_unit(),
        Metric::ReactivePowerUpperBoundVar.spec_unit() == Metric::ReactivePowerVar.spec_unit(),
        Metric::ReactivePowerVar.spec_unit() != Metric::ActivePowerW.spec_unit(),
        Metric::FrequencyHz.spec_unit() != Metric::ActivePowerW.spec_unit(),
        Metric::SocPct.spec_unit() != Metric::ActivePowerW.spec_unit(),
        Metric::SocPct.spec_unit() != Metric::FrequencyHz.spec_unit(),
{
    reveal_strlit("Frequency");
    reveal_strlit("Percentage");
    reveal_strlit("ReactivePower");
    reveal_strlit("Power");
    reveal_strlit("Hz");
    reveal_strlit("%");
    reveal_strlit("var");
    reveal_strlit("W");
    assert("Frequency"@.len() == 9);
    assert("Percentage"@.len() == 10);
    assert("ReactivePower"@.len() == 13);
    assert("Power"@.len() == 5);
    assert("Hz"@.len() == 2);
    assert("var"@.len() == 3);
    assert("%"@[0] != "W"@[0]);
    assert("%"@.len() == 1 && "W"@.len() == 1);
}

/// A snapshot charts what it reads: each metric its own reading, the bounds
/// those of the first interval, and a reading that is absent nothing.
pub proof fn charts_show_the_snapshot(snapshot: Telemetry, first: Bounds, rest: Seq<Bounds>)
    ensures
        charted(snapshot, Metric::ActivePowerW) == snapshot.active_power_w,
        charted(snapshot, Metric::ReactivePowerVar) == snapshot.reactive_power_var,
        charted(snapshot, Metric::FrequencyHz) == snapshot.frequency_hz,
        charted(snapshot, Metric::SocPct) == snapshot.soc_pct,
        charted(snapshot, Metric::DcPowerW) is None,
        snapshot.active_power_bounds matches Some(b) && b@ == seq![first] + rest ==> charted(
            snapshot,
            Metric::ActivePowerLowerBoundW,
        ) == first.lower && charted(snapshot, Metric::ActivePowerUpperBoundW) == first.upper,
        snapshot.reactive_power_bounds matches Some(r) ==> charted(
            snapshot,
            Metric::ReactivePowerLowerBoundVar,
        ) == Some(r.0) && charted(snapshot, Metric::ReactivePowerUpperBoundVar) == Some(r.1),
        snapshot.active_power_bounds is None ==> charted(
            snapshot,
            Metric::ActivePowerLowerBoundW,
        ) is None && charted(snapshot, Metric::ActivePowerUpperBoundW) is None,
        snapshot.reactive_power_bounds is None ==> charted(
            snapshot,
            Metric::ReactivePowerLowerBoundVar,
        ) is None && charted(snapshot, Metric::ReactivePowerUpperBoundVar) is None,
{
}

/// A snapshot contributes each metric that it charts, once and with the value
/// charted, and nothing else.
pub proof fn contributions_are_what_is_charted(snapshot: Telemetry)
    ensures
        forall|m: Metric|
            #![trigger charted(snapshot, m)]
            charted(snapshot, m) matches Some(v) ==> exists|i: int|
                0 <= i < contributions(snapshot).len() && contributions(snapshot)[i] == (m, v),
        forall|i: int|
            0 <= i < contributions(snapshot).len() ==> charted(
                snapshot,
                (#[trigger] contributions(snapshot)[i]).0,
            ) == Some(contributions(snapshot)[i].1),
        forall|i: int, j: int|
            0 <= i < j < contributions(snapshot).len() ==> (
            #[trigger] contributions(snapshot)[i]).0 != (#[trigger] contributions(snapshot)[j]).0,
{
    let m0 = Metric::ActivePowerW;
    let m1 = Metric::ReactivePowerVar;
    let m2 = Metric::FrequencyHz;
    let m3 = Metric::SocPct;
    let m4 = Metric::ActivePowerLowerBoundW;
    let m5 = Metric::ActivePowerUpperBoundW;
    let m6 = Metric::ReactivePowerLowerBoundVar;
    let m7 = Metric::ReactivePowerUpperBoundVar;
    let none = Seq::<(Metric, Scalar)>::empty();
    let s0 = noted(none, m0, charted(snapshot, m0));
    let s1 = noted(s0, m1, charted(snapshot, m1));
    let s2 = noted(s1, m2, charted(snapshot, m2));
    let s3 = noted(s2, m3, charted(snapshot, m3));
    let s4 = noted(s3, m4, charted(snapshot, m4));
    let s5 = noted(s4, m5, charted(snapshot, m5));
    let s6 = noted(s5, m6, charted(snapshot, m6));
    note_adds_one(none, m0, snapshot, Set::empty());
    let k0 = Set::empty().insert(m0);
    note_adds_one(s0, m1, snapshot, k0);
    let k1 = k0.insert(m1);
    note_adds_one(s1, m2, snapshot, k1);
    let k2 = k1.insert(m2);
    note_adds_one(s2, m3, snapshot, k2);
    let k3 = k2.insert(m3);
    note_adds_one(s3, m4, snapshot, k3);
    let k4 = k3.insert(m4);
    note_adds_one(s4, m5, snapshot, k4);
    let k5 = k4.insert(m5);
    note_adds_one(s5, m6, snapshot, k5);
    let k6 = k5.insert(m6);
    note_adds_one(s6, m7, snapshot, k6);
    assert forall|m: Metric|
        #![trigger charted(snapshot, m)]
        charted(snapshot, m) matches Some(v) implies exists|i: int|
        0 <= i < contributions(snapshot).len() && contributions(snapshot)[i] == (
            m,
            charted(snapshot, m)->0,
        ) by {
        assert(m == Metric::DcPowerW || k6.insert(m7).contains(m));
    }
}

/// `pairs` holds what the snapshot charts of the metrics in `kinds`, each once.
spec fn notes(pairs: Seq<(Metric, Scalar)>, snapshot: Telemetry, kinds: Set<Metric>) -> bool {
    &&& forall|i: int|
        0 <= i < pairs.len() ==> kinds.contains((#[trigger] pairs[i]).0) && charted(
            snapshot,
            pairs[i].0,
        ) == Some(pairs[i].1)
    &&& forall|i: int, j: int|
        0 <= i < j < pairs.len() ==> (#[trigger] pairs[i]).0 != (#[trigger] pairs[j]).0
    &&& forall|m: Metric| #[trigger]
        kinds.contains(m) ==> (charted(snapshot, m) matches Some(v) ==> exists|i: int|
            0 <= i < pairs.len() && pairs[i] == (m, v))
}

proof fn note_adds_one(
    pairs: Seq<(Metric, Scalar)>,
    metric: Metric,
    snapshot: Telemetry,
    kinds: Set<Metric>,
)
    requires
        notes(pairs, snapshot, kinds),
        !kinds.contains(metric),
    ensures
        notes(noted(pairs, metric, charted(snapshot, metric)), snapshot, kinds.insert(metric)),
{
    let out = noted(pairs, metric, charted(snapshot, metric));
    assert forall|m: Metric| #[trigger] kinds.insert(metric).contains(m) implies (charted(
        snapshot,
        m,
    ) matches Some(v) ==> exists|i: int| 0 <= i < out.len() && out[i] == (m, v)) by {
        if let Some(v) = charted(snapshot, m) {
            if m == metric {
                assert(out[pairs.len() as int] == (m, v));
            } else {
                assert(kinds.contains(m));
                let i = choose|i: int| 0 <= i < pairs.len() && pairs[i] == (m, v);
                assert(out[i] == (m, v));
            }
        }
    }
}

/// Recording a value puts it behind the samples of its own metric and leaves
/// every other metric as it was.
pub proof fn recording_touches_one_ring(
    before: ComponentHistory,
    after: ComponentHistory,
    ts: Moment,
    metric: Metric,
    value: Scalar,
    other: Metric,
)
    requires
        after.records(before, ts, metric, Some(value)),
        before.capacity > 0,
        before.ring(metric).len() <= before.capacity,
    ensures
        after.has(metric),
        after.ring(metric).last() == (Sample { ts, value }),
        after.ring(metric).len() <= before.capacity,
        other != metric ==> after.ring(other) == before.ring(other) && after.has(other)
            == before.has(other),
        after.capacity == before.capacity,
{
}

/// Where there is no value, nothing is recorded.
pub proof fn nothing_is_recorded_without_a_value(
    before: ComponentHistory,
    after: ComponentHistory,
    ts: Moment,
    metric: Metric,
    any: Metric,
)
    requires
        after.records(before, ts, metric, None),
    ensures
        after.ring(any) == before.ring(any),
        after.has(any) == before.has(any),
{
}

} // verus!
