//! One pass of the history sampler over every registered component.

use crate::bounds::VecBounds;
use crate::component::{Category, Telemetry};
use crate::events::SiteEvent;
use crate::history::{charted, contributions, ring_push, ComponentHistory, Metric, Sample};
use crate::registry::{Component, Registry, HISTORY_CAPACITY};
use crate::scalar::Scalar;
use crate::scenario::ScenarioJournal;
use crate::time::Moment;
use vstd::prelude::*;

verus! {

broadcast use vstd::std_specs::btree::group_btree_axioms;

/// What one component reports in a pass.
#[derive(Debug)]
pub struct Snapshot {
    pub telemetry: Telemetry,
    /// Its active-power envelope, where it has one.
    pub bounds: Option<VecBounds>,
}

/// One metric value of one component.
pub type Reading = (u64, Metric, Scalar);

/// A component's ring of one metric after a pass. A component registered
/// twice under one id contributes twice.
pub open spec fn ring_after(
    start: Seq<Sample>,
    components: Seq<Component>,
    snapshots: Seq<Snapshot>,
    id: u64,
    metric: Metric,
    now: Moment,
) -> Seq<Sample>
    decreases components.len(),
{
    if components.len() == 0 || snapshots.len() == 0 {
        start
    } else {
        let before = ring_after(
            start,
            components.drop_last(),
            snapshots.drop_last(),
            id,
            metric,
            now,
        );
        match charted(snapshots.last().telemetry, metric) {
            Some(value) if components.last().id == id => ring_push(
                before,
                HISTORY_CAPACITY as nat,
                Sample { ts: now, value },
            ),
            _ => before,
        }
    }
}

/// A component of that id charts that metric in the pass.
pub open spec fn charts(
    components: Seq<Component>,
    snapshots: Seq<Snapshot>,
    id: u64,
    metric: Metric,
) -> bool
    decreases components.len(),
{
    components.len() > 0 && snapshots.len() > 0 && (charts(
        components.drop_last(),
        snapshots.drop_last(),
        id,
        metric,
    ) || (components.last().id == id && charted(snapshots.last().telemetry, metric) is Some))
}

/// Everything charted in the pass, in recording order.
pub open spec fn readings(components: Seq<Component>, snapshots: Seq<Snapshot>) -> Seq<Reading>
    decreases components.len(),
{
    if components.len() == 0 || snapshots.len() == 0 {
        Seq::empty()
    } else {
        let id = components.last().id;
        readings(components.drop_last(), snapshots.drop_last()) + contributions(
            snapshots.last().telemetry,
        ).map_values(|p: (Metric, Scalar)| (id, p.0, p.1))
    }
}

/// The power that the scenario reporter integrates for a component: DC power
/// of a battery.
pub open spec fn battery_power(c: Component, t: Telemetry) -> Option<Scalar> {
    if c.category == Category::Battery {
        t.dc_power_w
    } else {
        None
    }
}

/// The power that the scenario reporter integrates for a component: active
/// power of a solar inverter.
pub open spec fn pv_power(c: Component, t: Telemetry) -> Option<Scalar> {
    if c.category == Category::Inverter && c.is_subtype("solar"@) {
        t.active_power_w
    } else {
        None
    }
}

pub open spec fn battery_samples(components: Seq<Component>, snapshots: Seq<Snapshot>) -> Seq<
    (u64, Scalar),
>
    decreases components.len(),
{
    if components.len() == 0 || snapshots.len() == 0 {
        Seq::empty()
    } else {
        let rest = battery_samples(components.drop_last(), snapshots.drop_last());
        match battery_power(components.last(), snapshots.last().telemetry) {
            Some(p) => rest.push((components.last().id, p)),
            None => rest,
        }
    }
}

pub open spec fn pv_samples(components: Seq<Component>, snapshots: Seq<Snapshot>) -> Seq<
    (u64, Scalar),
>
    decreases components.len(),
{
    if components.len() == 0 || snapshots.len() == 0 {
        Seq::empty()
    } else {
        let rest = pv_samples(components.drop_last(), snapshots.drop_last());
        match pv_power(components.last(), snapshots.last().telemetry) {
            Some(p) => rest.push((components.last().id, p)),
            None => rest,
        }
    }
}

/// The journal after it has seen the readings in order.
pub open spec fn journal_after(
    journal: ScenarioJournal,
    seen: Seq<Reading>,
    main_meter_id: Option<u64>,
) -> ScenarioJournal
    decreases seen.len(),
{
    if seen.len() == 0 {
        journal
    } else {
        let before = journal_after(journal, seen.drop_last(), main_meter_id);
        let (id, metric, value) = seen.last();
        ScenarioJournal {
            peak_main_meter_active_w: before.peak_after(id, metric, value, main_meter_id),
            ..before
        }
    }
}

/// The event for one reading.
pub open spec fn sample_event(reading: Reading, now: Moment) -> SiteEvent {
    SiteEvent::Sample {
        id: reading.0,
        metric: reading.1,
        ts_ms: (now.nanos as int / 1_000_000) as i64,
        value: reading.2,
    }
}

/// What a pass hands on.
#[derive(Debug)]
pub struct Pass {
    /// For live subscribers, in recording order.
    pub events: Vec<SiteEvent>,
    /// DC power of each battery, for the scenario integrals.
    pub battery_samples: Vec<(u64, Scalar)>,
    /// Active power of each solar inverter, for the scenario integrals.
    pub pv_samples: Vec<(u64, Scalar)>,
}

/// `after` is `before` after a pass at `now`, and `out` is what it handed on.
pub open spec fn samples(
    before: Registry,
    after: Registry,
    now: Moment,
    snapshots: Seq<Snapshot>,
    out: Pass,
) -> bool {
    let seen = readings(before.components@, snapshots);
    &&& after == (Registry { histories: after.histories, scenario: after.scenario, ..before })
    &&& forall|id: u64, m: Metric| #[trigger]
        after.ring(id, m) == ring_after(
            before.ring(id, m),
            before.components@,
            snapshots,
            id,
            m,
            now,
        )
    &&& forall|id: u64, m: Metric| #[trigger]
        after.has_ring(id, m) == (before.has_ring(id, m) || charts(
            before.components@,
            snapshots,
            id,
            m,
        ))
    &&& after.scenario == journal_after(before.scenario, seen, before.main_meter_id)
    &&& out.events@ == seen.map_values(|r: Reading| sample_event(r, now))
    &&& out.battery_samples@ == battery_samples(before.components@, snapshots)
    &&& out.pv_samples@ == pv_samples(before.components@, snapshots)
}

/// The first `n + 1` entries of a pass are the first `n` and one more.
proof fn pass_grows(components: Seq<Component>, snapshots: Seq<Snapshot>, n: int)
    requires
        0 <= n < components.len(),
        components.len() == snapshots.len(),
    ensures
        components.take(n + 1).drop_last() == components.take(n),
        snapshots.take(n + 1).drop_last() == snapshots.take(n),
        components.take(n + 1).last() == components[n],
        snapshots.take(n + 1).last() == snapshots[n],
{
    assert(components.take(n + 1).drop_last() =~= components.take(n));
    assert(snapshots.take(n + 1).drop_last() =~= snapshots.take(n));
}

/// The journal stays well formed: readings only move the peak.
proof fn journal_keeps_shape(
    journal: ScenarioJournal,
    seen: Seq<Reading>,
    main_meter_id: Option<u64>,
)
    ensures
        journal_after(journal, seen, main_meter_id) == (ScenarioJournal {
            peak_main_meter_active_w: journal_after(
                journal,
                seen,
                main_meter_id,
            ).peak_main_meter_active_w,
            ..journal
        }),
    decreases seen.len(),
{
    if seen.len() > 0 {
        journal_keeps_shape(journal, seen.drop_last(), main_meter_id);
    }
}

impl Registry {
    /// Pushes one component's snapshot to its rings and appends what was
    /// recorded.
    fn push_history(&mut self, id: u64, telemetry: &Telemetry, now: Moment, seen: &mut Vec<Reading>)
        requires
            old(self).wf(),
            now.in_calendar(),
        ensures
            final(self).wf(),
            *final(self) == (Registry { histories: final(self).histories, ..*old(self) }),
            final(seen)@ == old(seen)@ + contributions(*telemetry).map_values(
                |p: (Metric, Scalar)| (id, p.0, p.1),
            ),
            forall|x: u64, m: Metric| #[trigger]
                final(self).ring(x, m) == (match charted(*telemetry, m) {
                    Some(value) if x == id => ring_push(
                        old(self).ring(x, m),
                        HISTORY_CAPACITY as nat,
                        Sample { ts: now, value },
                    ),
                    _ => old(self).ring(x, m),
                }),
            forall|x: u64, m: Metric| #[trigger]
                final(self).has_ring(x, m) == (old(self).has_ring(x, m) || (x == id && charted(
                    *telemetry,
                    m,
                ) is Some)),
    {
        let mut history = match self.histories.remove(&id) {
            Some(h) => h,
            None => ComponentHistory::new(HISTORY_CAPACITY),
        };
        let ghost before = history;
        assert forall|m: Metric| #[trigger] before.ring(m) == old(self).ring(id, m) by {}
        assert forall|m: Metric| #[trigger] before.has(m) == old(self).has_ring(id, m) by {}
        let pushed = history.push_snapshot(now, telemetry);
        let ghost after = history;
        self.histories.insert(id, history);
        assert forall|x: u64, m: Metric| #[trigger] self.ring(x, m) == (match charted(
            *telemetry,
            m,
        ) {
            Some(value) if x == id => ring_push(
                old(self).ring(x, m),
                HISTORY_CAPACITY as nat,
                Sample { ts: now, value },
            ),
            _ => old(self).ring(x, m),
        }) by {
            if x == id {
                assert(after.ring(m) == self.ring(x, m));
                assert(before.ring(m) == old(self).ring(id, m));
            }
        }
        assert forall|x: u64, m: Metric| #[trigger] self.has_ring(x, m) == (old(self).has_ring(
            x,
            m,
        ) || (x == id && charted(*telemetry, m) is Some)) by {
            if x == id {
                assert(after.has(m) == self.has_ring(x, m));
                assert(before.has(m) == old(self).has_ring(id, m));
            }
        }
        let ghost start = seen@;
        let ghost tagged = contributions(*telemetry).map_values(
            |p: (Metric, Scalar)| (id, p.0, p.1),
        );
        let mut i: usize = 0;
        assert(seen@ =~= start + tagged.take(0));
        while i < pushed.len()
            invariant
                i <= pushed.len(),
                pushed@ == contributions(*telemetry),
                tagged == contributions(*telemetry).map_values(
                    |p: (Metric, Scalar)| (id, p.0, p.1),
                ),
                seen@ == start + tagged.take(i as int),
            decreases pushed.len() - i,
        {
            let p = pushed[i];
            seen.push((id, p.0, p.1));
            i = i + 1;
            assert(tagged[i - 1] == (id, p.0, p.1));
            assert(seen@ =~= start + tagged.take(i as int));
        }
        assert(tagged.take(tagged.len() as int) =~= tagged);
    }

    /// One pass of the sampler at `now`. There is one snapshot per registered
    /// component, in registration order. Each goes to its component's rings,
    /// and the journal sees every reading.
    pub fn record_history_snapshot(&mut self, now: Moment, snapshots: &Vec<Snapshot>) -> (out: Pass)
        requires
            old(self).wf(),
            now.in_calendar(),
            snapshots.len() == old(self).components.len(),
        ensures
            final(self).wf(),
            samples(*old(self), *final(self), now, snapshots@, out),
    {
        let ghost comps = self.components@;
        let ghost snaps = snapshots@;
        let mut seen: Vec<Reading> = Vec::new();
        let mut batteries: Vec<(u64, Scalar)> = Vec::new();
        let mut pvs: Vec<(u64, Scalar)> = Vec::new();
        let mut i: usize = 0;
        while i < snapshots.len()
            invariant
                i <= snapshots.len(),
                snapshots@ == snaps,
                snaps.len() == comps.len(),
                old(self).components@ == comps,
                now.in_calendar(),
                self.wf(),
                *self == (Registry { histories: self.histories, ..*old(self) }),
                seen@ == readings(comps.take(i as int), snaps.take(i as int)),
                batteries@ == battery_samples(comps.take(i as int), snaps.take(i as int)),
                pvs@ == pv_samples(comps.take(i as int), snaps.take(i as int)),
                forall|id: u64, m: Metric| #[trigger]
                    self.ring(id, m) == ring_after(
                        old(self).ring(id, m),
                        comps.take(i as int),
                        snaps.take(i as int),
                        id,
                        m,
                        now,
                    ),
                forall|id: u64, m: Metric| #[trigger]
                    self.has_ring(id, m) == (old(self).has_ring(id, m) || charts(
                        comps.take(i as int),
                        snaps.take(i as int),
                        id,
                        m,
                    )),
            decreases snapshots.len() - i,
        {
            proof {
                pass_grows(comps, snaps, i as int);
            }
            let id: u64 = self.components[i].id;
            let snap = &snapshots[i];
            match self.components[i].category {
                Category::Battery => if let Some(p) = snap.telemetry.dc_power_w {
                    batteries.push((id, p));
                },
                Category::Inverter => if self.components[i].has_subtype("solar") {
                    if let Some(p) = snap.telemetry.active_power_w {
                        pvs.push((id, p));
                    }
                },
                _ => {},
            }
            self.push_history(id, &snap.telemetry, now, &mut seen);
            i = i + 1;
        }
        assert(comps.take(comps.len() as int) =~= comps);
        assert(snaps.take(snaps.len() as int) =~= snaps);
        let ts_ms: i64 = now.millis();
        let main = self.main_meter_id;
        let ghost sampled = *self;
        let ghost all = seen@;
        let mut events: Vec<SiteEvent> = Vec::new();
        let mut j: usize = 0;
        assert(all.take(0) =~= Seq::<Reading>::empty());
        assert(events@ =~= all.take(0).map_values(|r: Reading| sample_event(r, now)));
        while j < seen.len()
            invariant
                j <= seen.len(),
                seen@ == all,
                main == sampled.main_meter_id,
                ts_ms == (now.nanos as int / 1_000_000) as i64,
                *self == (Registry {
                    scenario: journal_after(sampled.scenario, all.take(j as int), main),
                    ..sampled
                }),
                events@ == all.take(j as int).map_values(|r: Reading| sample_event(r, now)),
            decreases seen.len() - j,
        {
            assert(all.take(j + 1).drop_last() =~= all.take(j as int));
            let (id, metric, value) = seen[j];
            self.scenario.record_sample(id, metric, value, main);
            events.push(SiteEvent::Sample { id, metric, ts_ms, value });
            assert(events@ =~= all.take(j + 1).map_values(|r: Reading| sample_event(r, now)));
            j = j + 1;
        }
        assert(all.take(all.len() as int) =~= all);
        proof {
            journal_keeps_shape(sampled.scenario, all, main);
            assert forall|id: u64, m: Metric| #[trigger] self.ring(id, m) == sampled.ring(
                id,
                m,
            ) by {}
            assert forall|id: u64, m: Metric| #[trigger] self.has_ring(id, m) == sampled.has_ring(
                id,
                m,
            ) by {}
        }
        Pass { events, battery_samples: batteries, pv_samples: pvs }
    }
}

/// One more component adds to a pass what it charts, behind everything charted
/// before and under its own id.
pub proof fn one_more_component_is_charted(
    components: Seq<Component>,
    snapshots: Seq<Snapshot>,
    c: Component,
    s: Snapshot,
)
    requires
        components.len() == snapshots.len(),
    ensures
        ({
            let before = readings(components, snapshots);
            let after = readings(components.push(c), snapshots.push(s));
            let own = contributions(s.telemetry);
            &&& after.len() == before.len() + own.len()
            &&& forall|i: int| 0 <= i < before.len() ==> #[trigger] after[i] == before[i]
            &&& forall|i: int|
                0 <= i < own.len() ==> #[trigger] after[before.len() + i] == (
                    c.id,
                    own[i].0,
                    own[i].1,
                )
        }),
{
    assert(components.push(c).drop_last() =~= components);
    assert(snapshots.push(s).drop_last() =~= snapshots);
}

/// One more component is recorded in its own rings alone: the ring of a metric
/// that it charts gains that sample as its newest, and every other ring stays.
pub proof fn one_more_component_is_recorded(
    start: Seq<Sample>,
    components: Seq<Component>,
    snapshots: Seq<Snapshot>,
    c: Component,
    s: Snapshot,
    id: u64,
    metric: Metric,
    now: Moment,
)
    requires
        components.len() == snapshots.len(),
    ensures
        ({
            let before = ring_after(start, components, snapshots, id, metric, now);
            let after = ring_after(
                start,
                components.push(c),
                snapshots.push(s),
                id,
                metric,
                now,
            );
            &&& c.id != id || charted(s.telemetry, metric) is None ==> after == before
            &&& c.id == id && before.len() <= HISTORY_CAPACITY ==> (charted(
                s.telemetry,
                metric,
            ) matches Some(v) ==> after.len() > 0 && after.last().value == v && after.last().ts
                == now && after.len() <= HISTORY_CAPACITY)
        }),
        ({
            let before = charts(components, snapshots, id, metric);
            let after = charts(components.push(c), snapshots.push(s), id, metric);
            after == (before || (c.id == id && charted(s.telemetry, metric) is Some))
        }),
{
    assert(components.push(c).drop_last() =~= components);
    assert(snapshots.push(s).drop_last() =~= snapshots);
}

/// The scenario integrals get the DC power of each battery and the active power
/// of each solar inverter, and nothing of any other component.
pub proof fn integrals_get_batteries_and_solar(
    components: Seq<Component>,
    snapshots: Seq<Snapshot>,
    c: Component,
    s: Snapshot,
)
    requires
        components.len() == snapshots.len(),
    ensures
        ({
            let before = battery_samples(components, snapshots);
            let after = battery_samples(components.push(c), snapshots.push(s));
            &&& c.category != Category::Battery ==> after == before
            &&& s.telemetry.dc_power_w is None ==> after == before
            &&& c.category == Category::Battery ==> (s.telemetry.dc_power_w matches Some(p)
                ==> after == before.push((c.id, p)))
        }),
        ({
            let before = pv_samples(components, snapshots);
            let after = pv_samples(components.push(c), snapshots.push(s));
            &&& c.category != Category::Inverter || !c.is_subtype("solar"@) ==> after == before
            &&& s.telemetry.active_power_w is None ==> after == before
            &&& c.category == Category::Inverter && c.is_subtype("solar"@) ==> (
            s.telemetry.active_power_w matches Some(p) ==> after == before.push((c.id, p)))
        }),
        battery_samples(Seq::empty(), Seq::empty()).len() == 0,
        pv_samples(Seq::empty(), Seq::empty()).len() == 0,
{
    assert(components.push(c).drop_last() =~= components);
    assert(snapshots.push(s).drop_last() =~= snapshots);
}

/// After a pass the peak of a running scenario is at least every active power
/// of the main meter that the pass recorded, no lower than before, and one of
/// these.
pub proof fn peak_covers_the_pass(
    journal: ScenarioJournal,
    seen: Seq<Reading>,
    main_meter_id: Option<u64>,
)
    requires
        !journal.peak_main_meter_active_w.spec_is_nan(),
        journal.started_at is Some,
        journal.ended_at is None,
    ensures
        ({
            let after = journal_after(journal, seen, main_meter_id);
            let peak = after.peak_main_meter_active_w;
            &&& !peak.spec_is_nan()
            &&& journal.peak_main_meter_active_w.spec_at_most(peak)
            &&& forall|i: int|
                0 <= i < seen.len() && main_meter_id == Some((#[trigger] seen[i]).0) && seen[i].1
                    == Metric::ActivePowerW && !seen[i].2.spec_is_nan() ==> seen[i].2.spec_at_most(
                    peak,
                )
            &&& peak == journal.peak_main_meter_active_w || exists|i: int|
                0 <= i < seen.len() && main_meter_id == Some((#[trigger] seen[i]).0) && seen[i].1
                    == Metric::ActivePowerW && seen[i].2 == peak
            &&& after == (ScenarioJournal { peak_main_meter_active_w: peak, ..journal })
        }),
    decreases seen.len(),
{
    if seen.len() > 0 {
        let init = seen.drop_last();
        peak_covers_the_pass(journal, init, main_meter_id);
        let before = journal_after(journal, init, main_meter_id);
        let (id, metric, value) = seen.last();
        let peak = before.peak_after(id, metric, value, main_meter_id);
        assert forall|i: int|
            0 <= i < seen.len() && main_meter_id == Some((#[trigger] seen[i]).0) && seen[i].1
                == Metric::ActivePowerW && !seen[i].2.spec_is_nan() implies seen[i].2.spec_at_most(
            peak,
        ) by {
            if i < init.len() {
                assert(init[i] == seen[i]);
            }
        }
        if peak == before.peak_main_meter_active_w {
            if peak != journal.peak_main_meter_active_w {
                let i = choose|i: int|
                    0 <= i < init.len() && main_meter_id == Some((#[trigger] init[i]).0)
                        && init[i].1 == Metric::ActivePowerW && init[i].2 == peak;
                assert(seen[i] == init[i]);
            }
        } else {
            assert(seen[seen.len() - 1].2 == peak);
        }
    }
}

/// Each reading of a pass goes out as one event, in order: its component,
/// metric and value, dated by the pass in whole milliseconds.
pub proof fn events_tell_the_readings(
    before: Registry,
    after: Registry,
    now: Moment,
    snapshots: Seq<Snapshot>,
    out: Pass,
    i: int,
)
    requires
        samples(before, after, now, snapshots, out),
        now.in_calendar(),
        0 <= i < out.events@.len(),
    ensures
        out.events@.len() == readings(before.components@, snapshots).len(),
        out.events@[i] matches SiteEvent::Sample { id, metric, ts_ms, value } && {
            &&& (id, metric, value) == readings(before.components@, snapshots)[i]
            &&& ts_ms * 1_000_000 <= now.nanos < (ts_ms + 1) * 1_000_000
        },
{
}

} // verus!
