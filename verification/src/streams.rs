//! Aggregated streams of a microgrid: the latest sample of each stream and a
//! ring of past ones.

use crate::bounds::Bounds;
use crate::events::SiteEvent;
use crate::history::ring_push;
use crate::keys::{ascending_keys, lists_keys};
use crate::scalar::Scalar;
use std::collections::{BTreeMap, VecDeque};
use vstd::prelude::*;

verus! {

broadcast use vstd::std_specs::btree::group_btree_axioms;

/// Samples kept of each stream: a quarter of an hour at one per second, with
/// some slack.
pub const MICROGRID_HISTORY_CAP: usize = 1000;

/// The streams that a dashboard reads.
#[derive(Clone, Copy, Debug, PartialEq, Eq, Structural)]
pub enum Stream {
    GridPower,
    ConsumerPower,
    ProducerPower,
    PvPower,
    BatteryPoolPower,
    BatteryPoolBoundsLower,
    BatteryPoolBoundsUpper,
}

impl Stream {
    pub open spec fn spec_name(self) -> Seq<char> {
        match self {
            Stream::GridPower => "grid_power"@,
            Stream::ConsumerPower => "consumer_power"@,
            Stream::ProducerPower => "producer_power"@,
            Stream::PvPower => "pv_power"@,
            Stream::BatteryPoolPower => "battery_pool_power"@,
            Stream::BatteryPoolBoundsLower => "battery_pool_bounds_lower"@,
            Stream::BatteryPoolBoundsUpper => "battery_pool_bounds_upper"@,
        }
    }

    /// The name of the stream on the event bus.
    pub fn name(self) -> (out: &'static str)
        ensures
            out@ == self.spec_name(),
    {
        match self {
            Stream::GridPower => "grid_power",
            Stream::ConsumerPower => "consumer_power",
            Stream::ProducerPower => "producer_power",
            Stream::PvPower => "pv_power",
            Stream::BatteryPoolPower => "battery_pool_power",
            Stream::BatteryPoolBoundsLower => "battery_pool_bounds_lower",
            Stream::BatteryPoolBoundsUpper => "battery_pool_bounds_upper",
        }
    }

    /// The key of the stream in a map.
    pub open spec fn spec_key(self) -> u64 {
        match self {
            Stream::GridPower => 0,
            Stream::ConsumerPower => 1,
            Stream::ProducerPower => 2,
            Stream::PvPower => 3,
            Stream::BatteryPoolPower => 4,
            Stream::BatteryPoolBoundsLower => 5,
            Stream::BatteryPoolBoundsUpper => 6,
        }
    }

    fn key(self) -> (out: u64)
        ensures
            out == self.spec_key(),
    {
        match self {
            Stream::GridPower => 0,
            Stream::ConsumerPower => 1,
            Stream::ProducerPower => 2,
            Stream::PvPower => 3,
            Stream::BatteryPoolPower => 4,
            Stream::BatteryPoolBoundsLower => 5,
            Stream::BatteryPoolBoundsUpper => 6,
        }
    }

    /// The stream with that key.
    pub open spec fn spec_at(key: u64) -> Option<Stream> {
        match key {
            0 => Some(Stream::GridPower),
            1 => Some(Stream::ConsumerPower),
            2 => Some(Stream::ProducerPower),
            3 => Some(Stream::PvPower),
            4 => Some(Stream::BatteryPoolPower),
            5 => Some(Stream::BatteryPoolBoundsLower),
            6 => Some(Stream::BatteryPoolBoundsUpper),
            _ => None,
        }
    }

    fn at(key: u64) -> (out: Option<Stream>)
        ensures
            out == Stream::spec_at(key),
    {
        match key {
            0 => Some(Stream::GridPower),
            1 => Some(Stream::ConsumerPower),
            2 => Some(Stream::ProducerPower),
            3 => Some(Stream::PvPower),
            4 => Some(Stream::BatteryPoolPower),
            5 => Some(Stream::BatteryPoolBoundsLower),
            6 => Some(Stream::BatteryPoolBoundsUpper),
            _ => None,
        }
    }
}

/// The latest sample of a stream; no value where the stream has none.
#[derive(Clone, Copy, Debug)]
pub struct MicrogridSampleSnapshot {
    pub quantity: &'static str,
    pub unit: &'static str,
    pub ts_ms: i64,
    pub value: Option<Scalar>,
}

/// One past sample of a stream.
#[derive(Clone, Copy, Debug, PartialEq, Eq, Structural)]
pub struct HistorySample {
    pub ts_ms: i64,
    pub value: Option<Scalar>,
}

/// What is cached of a microgrid's streams.
#[derive(Debug)]
pub struct MicrogridState {
    pub latest: BTreeMap<u64, MicrogridSampleSnapshot>,
    pub history: BTreeMap<u64, VecDeque<HistorySample>>,
}

/// An empty cache.
pub fn new_microgrid_slot() -> (out: MicrogridState)
    ensures
        out.wf(),
        out.latest@ == Map::<u64, MicrogridSampleSnapshot>::empty(),
        out.history@ == Map::<u64, VecDeque<HistorySample>>::empty(),
{
    MicrogridState { latest: BTreeMap::new(), history: BTreeMap::new() }
}

impl MicrogridState {
    /// Only streams have entries, and no ring outgrows its capacity.
    pub open spec fn wf(self) -> bool {
        &&& forall|k: u64| #[trigger] self.latest@.contains_key(k) ==> Stream::spec_at(k) is Some
        &&& forall|k: u64| #[trigger]
            self.history@.contains_key(k) ==> Stream::spec_at(k) is Some
                && self.history@[k]@.len() <= MICROGRID_HISTORY_CAP
    }

    /// The latest sample of a stream.
    pub open spec fn newest(self, stream: Stream) -> Option<MicrogridSampleSnapshot> {
        if self.latest@.contains_key(stream.spec_key()) {
            Some(self.latest@[stream.spec_key()])
        } else {
            None
        }
    }

    /// The past samples of a stream, oldest first.
    pub open spec fn ring(self, stream: Stream) -> Seq<HistorySample> {
        if self.history@.contains_key(stream.spec_key()) {
            self.history@[stream.spec_key()]@
        } else {
            Seq::empty()
        }
    }

    /// Caches one sample of a stream, appends it to the stream's ring and
    /// gives the event to fan out. Other streams are left alone.
    pub fn publish_scalar(
        &mut self,
        stream: Stream,
        quantity: &'static str,
        unit: &'static str,
        value: Option<Scalar>,
        ts_ms: i64,
    ) -> (event: SiteEvent)
        requires
            old(self).wf(),
        ensures
            final(self).wf(),
            final(self).newest(stream) == Some(
                MicrogridSampleSnapshot { quantity, unit, ts_ms, value },
            ),
            final(self).ring(stream) == ring_push(
                old(self).ring(stream),
                MICROGRID_HISTORY_CAP as nat,
                HistorySample { ts_ms, value },
            ),
            forall|s: Stream|
                s != stream ==> #[trigger] final(self).newest(s) == old(self).newest(s)
                    && final(self).ring(s) == old(self).ring(s),
            event matches SiteEvent::MicrogridSample {
                stream: name,
                quantity: q,
                unit: u,
                ts_ms: t,
                value: v,
            } && name@ == stream.spec_name() && q == quantity && u == unit && t == ts_ms && v
                == value,
    {
        let key: u64 = stream.key();
        self.latest.insert(key, MicrogridSampleSnapshot { quantity, unit, ts_ms, value });
        let mut ring = match self.history.remove(&key) {
            Some(r) => r,
            None => VecDeque::new(),
        };
        let ghost before = ring@;
        if ring.len() == MICROGRID_HISTORY_CAP {
            let _ = ring.pop_front();
        }
        assert(before.len() == MICROGRID_HISTORY_CAP ==> ring@ =~= before.drop_first());
        ring.push_back(HistorySample { ts_ms, value });
        self.history.insert(key, ring);
        SiteEvent::MicrogridSample { stream: stream.name(), quantity, unit, ts_ms, value }
    }

    /// Forgets the latest samples, as when the streams are set up anew; the
    /// rings stay.
    pub fn clear_latest(&mut self)
        requires
            old(self).wf(),
        ensures
            final(self).wf(),
            final(self).history == old(self).history,
            final(self).latest@ == Map::<u64, MicrogridSampleSnapshot>::empty(),
    {
        self.latest = BTreeMap::new();
    }

    /// The latest sample of every stream that has one, in the order of the
    /// streams.
    pub fn latest_samples(&self) -> (out: Vec<(Stream, MicrogridSampleSnapshot)>)
        requires
            self.wf(),
        ensures
            exists|keys: Seq<u64>| #[trigger]
                lists_keys(self.latest@.dom(), keys) && out@.len() == keys.len() && forall|i: int|
                    0 <= i < keys.len() ==> (#[trigger] out@[i]).0.spec_key() == keys[i]
                        && out@[i].1 == self.latest@[keys[i]],
    {
        let keys = ascending_keys(&self.latest);
        let mut out: Vec<(Stream, MicrogridSampleSnapshot)> = Vec::new();
        let mut i: usize = 0;
        while i < keys.len()
            invariant
                i <= keys.len(),
                out.len() == i,
                self.wf(),
                lists_keys(self.latest@.dom(), keys@),
                forall|k: int|
                    0 <= k < i ==> (#[trigger] out@[k]).0.spec_key() == keys@[k] && out@[k].1
                        == self.latest@[keys@[k]],
            decreases keys.len() - i,
        {
            assert(keys@.contains(keys@[i as int]));
            assert(self.latest@.contains_key(keys@[i as int]));
            if let Some(s) = self.latest.get(&keys[i]) {
                if let Some(stream) = Stream::at(keys[i]) {
                    out.push((stream, *s));
                }
            }
            i = i + 1;
        }
        out
    }

    /// The past samples of every stream that has any, in the order of the
    /// streams.
    pub fn microgrid_history_body(&self) -> (out: Vec<(Stream, Vec<HistorySample>)>)
        requires
            self.wf(),
        ensures
            exists|keys: Seq<u64>| #[trigger]
                lists_keys(self.history@.dom(), keys) && out@.len() == keys.len() && forall|i: int|
                    0 <= i < keys.len() ==> (#[trigger] out@[i]).0.spec_key() == keys[i]
                        && out@[i].1@ == self.history@[keys[i]]@,
    {
        let keys = ascending_keys(&self.history);
        let mut out: Vec<(Stream, Vec<HistorySample>)> = Vec::new();
        let mut i: usize = 0;
        while i < keys.len()
            invariant
                i <= keys.len(),
                out.len() == i,
                self.wf(),
                lists_keys(self.history@.dom(), keys@),
                forall|k: int|
                    0 <= k < i ==> (#[trigger] out@[k]).0.spec_key() == keys@[k] && out@[k].1@
                        == self.history@[keys@[k]]@,
            decreases keys.len() - i,
        {
            assert(keys@.contains(keys@[i as int]));
            assert(self.history@.contains_key(keys@[i as int]));
            if let Some(ring) = self.history.get(&keys[i]) {
                if let Some(stream) = Stream::at(keys[i]) {
                    let mut samples: Vec<HistorySample> = Vec::new();
                    let mut j: usize = 0;
                    while j < ring.len()
                        invariant
                            j <= ring@.len(),
                            samples@ == ring@.take(j as int),
                        decreases ring@.len() - j,
                    {
                        samples.push(ring[j]);
                        j = j + 1;
                        assert(samples@ =~= ring@.take(j as int));
                    }
                    assert(samples@ =~= ring@);
                    out.push((stream, samples));
                }
            }
            i = i + 1;
        }
        out
    }
}

/// The lowest lower end among the envelopes that have one.
pub open spec fn outer_lower(envelopes: Seq<Bounds>) -> Option<Scalar>
    decreases envelopes.len(),
{
    if envelopes.len() == 0 {
        None
    } else {
        match (outer_lower(envelopes.drop_last()), envelopes.last().lower) {
            (Some(a), Some(b)) => Some(a.spec_lesser(b)),
            (None, b) => b,
            (a, None) => a,
        }
    }
}

/// The highest upper end among the envelopes that have one.
pub open spec fn outer_upper(envelopes: Seq<Bounds>) -> Option<Scalar>
    decreases envelopes.len(),
{
    if envelopes.len() == 0 {
        None
    } else {
        match (outer_upper(envelopes.drop_last()), envelopes.last().upper) {
            (Some(a), Some(b)) => Some(a.spec_greater(b)),
            (None, b) => b,
            (a, None) => a,
        }
    }
}

/// The outermost ends of a pool's envelopes; an end is absent where no
/// envelope has it.
pub fn outer_bound(envelopes: &Vec<Bounds>) -> (out: Bounds)
    ensures
        out.lower == outer_lower(envelopes@),
        out.upper == outer_upper(envelopes@),
{
    let mut lower: Option<Scalar> = None;
    let mut upper: Option<Scalar> = None;
    let mut i: usize = 0;
    while i < envelopes.len()
        invariant
            i <= envelopes.len(),
            lower == outer_lower(envelopes@.take(i as int)),
            upper == outer_upper(envelopes@.take(i as int)),
        decreases envelopes.len() - i,
    {
        assert(envelopes@.take(i + 1).drop_last() =~= envelopes@.take(i as int));
        let b = &envelopes[i];
        lower = match (lower, b.lower) {
            (Some(x), Some(y)) => Some(x.lesser(y)),
            (None, y) => y,
            (x, None) => x,
        };
        upper = match (upper, b.upper) {
            (Some(x), Some(y)) => Some(x.greater(y)),
            (None, y) => y,
            (x, None) => x,
        };
        i = i + 1;
    }
    assert(envelopes@.take(envelopes.len() as int) =~= envelopes@);
    Bounds { lower, upper }
}

/// What reached the supervisor of a microgrid's streams.
#[derive(Clone, Copy, Debug, PartialEq, Eq, Structural)]
pub enum Notice {
    TopologyChanged,
    /// Any other event of the site.
    Other,
    /// Events were missed; one of them may have been a change.
    Lagged,
    /// No further event will come.
    Closed,
}

/// What the supervisor does next.
#[derive(Clone, Copy, Debug, PartialEq, Eq, Structural)]
pub enum Supervision {
    Rebuild,
    Wait,
    /// Sets the streams up a last time, then ends.
    RebuildAndExit,
}

/// The streams are set up anew after each change of the topology, also after
/// one that may have been missed: among events that were skipped, or as the
/// last one before the events end.
pub fn supervise(notice: Notice) -> (out: Supervision)
    ensures
        out == (match notice {
            Notice::TopologyChanged => Supervision::Rebuild,
            Notice::Lagged => Supervision::Rebuild,
            Notice::Other => Supervision::Wait,
            Notice::Closed => Supervision::RebuildAndExit,
        }),
{
    match notice {
        Notice::TopologyChanged => Supervision::Rebuild,
        Notice::Lagged => Supervision::Rebuild,
        Notice::Other => Supervision::Wait,
        Notice::Closed => Supervision::RebuildAndExit,
    }
}

/// Streams keep apart: no two have the same key or the same name.
pub proof fn streams_are_distinct(a: Stream, b: Stream)
    requires
        a != b,
    ensures
        a.spec_key() != b.spec_key(),
        a.spec_name() != b.spec_name(),
{
    reveal_strlit("grid_power");
    reveal_strlit("consumer_power");
    reveal_strlit("producer_power");
    reveal_strlit("pv_power");
    reveal_strlit("battery_pool_power");
    reveal_strlit("battery_pool_bounds_lower");
    reveal_strlit("battery_pool_bounds_upper");
    assert("consumer_power"@[0] != "producer_power"@[0]);
    assert("grid_power"@.len() == 10 && "pv_power"@.len() == 8);
    assert("consumer_power"@.len() == 14 && "producer_power"@.len() == 14);
    assert("battery_pool_power"@.len() == 18);
    assert("battery_pool_bounds_lower"@.len() == 25);
    assert("battery_pool_bounds_upper"@.len() == 25);
    assert("battery_pool_bounds_lower"@[20] != "battery_pool_bounds_upper"@[20]);
}

/// The outer lower end is the lowest of the lower ends there are: none lies
/// below it, it is one of them, and it is absent only where all are.
pub proof fn outer_lower_is_the_lowest(envelopes: Seq<Bounds>)
    requires
        forall|i: int|
            0 <= i < envelopes.len() ==> ((#[trigger] envelopes[i]).lower matches Some(v)
                ==> !v.spec_is_nan()),
    ensures
        outer_lower(envelopes) is None <==> forall|i: int|
            0 <= i < envelopes.len() ==> (#[trigger] envelopes[i]).lower is None,
        outer_lower(envelopes) matches Some(l) ==> !l.spec_is_nan() && exists|i: int|
            0 <= i < envelopes.len() && (#[trigger] envelopes[i]).lower == Some(l),
        forall|i: int|
            0 <= i < envelopes.len() ==> ((#[trigger] envelopes[i]).lower matches Some(v) ==> (
            outer_lower(envelopes) matches Some(l) && l.spec_at_most(v))),
    decreases envelopes.len(),
{
    if envelopes.len() > 0 {
        let init = envelopes.drop_last();
        assert forall|i: int| 0 <= i < init.len() implies ((#[trigger] init[i]).lower matches Some(
            v,
        ) ==> !v.spec_is_nan()) by {
            assert(init[i] == envelopes[i]);
        }
        outer_lower_is_the_lowest(init);
        let n = envelopes.len() - 1;
        assert(envelopes[n] == envelopes.last());
        if let Some(l) = outer_lower(envelopes) {
            if envelopes.last().lower != Some(l) {
                let i = choose|i: int|
                    0 <= i < init.len() && (#[trigger] init[i]).lower == Some(l);
                assert(envelopes[i].lower == Some(l));
            }
        }
        assert forall|i: int| 0 <= i < envelopes.len() implies ((
        #[trigger] envelopes[i]).lower matches Some(v) ==> (outer_lower(envelopes) matches Some(l)
            && l.spec_at_most(v))) by {
            if i < n {
                assert(init[i] == envelopes[i]);
            }
        }
    }
}

/// The outer upper end is the highest of the upper ends there are: none lies
/// above it, it is one of them, and it is absent only where all are.
pub proof fn outer_upper_is_the_highest(envelopes: Seq<Bounds>)
    requires
        forall|i: int|
            0 <= i < envelopes.len() ==> ((#[trigger] envelopes[i]).upper matches Some(v)
                ==> !v.spec_is_nan()),
    ensures
        outer_upper(envelopes) is None <==> forall|i: int|
            0 <= i < envelopes.len() ==> (#[trigger] envelopes[i]).upper is None,
        outer_upper(envelopes) matches Some(u) ==> !u.spec_is_nan() && exists|i: int|
            0 <= i < envelopes.len() && (#[trigger] envelopes[i]).upper == Some(u),
        forall|i: int|
            0 <= i < envelopes.len() ==> ((#[trigger] envelopes[i]).upper matches Some(v) ==> (
            outer_upper(envelopes) matches Some(u) && v.spec_at_most(u))),
    decreases envelopes.len(),
{
    if envelopes.len() > 0 {
        let init = envelopes.drop_last();
        assert forall|i: int| 0 <= i < init.len() implies ((#[trigger] init[i]).upper matches Some(
            v,
        ) ==> !v.spec_is_nan()) by {
            assert(init[i] == envelopes[i]);
        }
        outer_upper_is_the_highest(init);
        let n = envelopes.len() - 1;
        assert(envelopes[n] == envelopes.last());
        if let Some(u) = outer_upper(envelopes) {
            if envelopes.last().upper != Some(u) {
                let i = choose|i: int|
                    0 <= i < init.len() && (#[trigger] init[i]).upper == Some(u);
                assert(envelopes[i].upper == Some(u));
            }
        }
        assert forall|i: int| 0 <= i < envelopes.len() implies ((
        #[trigger] envelopes[i]).upper matches Some(v) ==> (outer_upper(envelopes) matches Some(u)
            && v.spec_at_most(u))) by {
            if i < n {
                assert(init[i] == envelopes[i]);
            }
        }
    }
}

/// The supervisor sets the streams up anew whenever a change of the topology may
/// have come, and ends exactly when the events do.
pub proof fn no_change_is_missed(notice: Notice, out: Supervision)
    requires
        call_ensures(supervise, (notice,), out),
    ensures
        out == Supervision::Wait <==> notice == Notice::Other,
        out == Supervision::RebuildAndExit <==> notice == Notice::Closed,
{
}

} // verus!
