//! One microgrid: its registry, its environment, its setpoint deadlines and
//! its scenario recordings.

use crate::bounds::{is_sum, VecBounds};
use crate::component::{Telemetry, FIRST_AUTO_ID};
use crate::csv::{bounds_file, setpoints_file, telemetry_file, CsvFile};
use crate::events::SiteEvent;
use crate::fold::{folds, is_single_valued};
use crate::history::{is_sample_window, ring_push, Metric, Sample};
use crate::registry::{
    battery_socs, children, component_of, edges_where, is_visible, logs_setpoint, parents,
    publishes_soc, reported, socs_need_a_battery, without_component, Component, Registry,
};
use crate::report::{
    build_report, charges, discharges, is_single_mean, is_single_quotient, is_summary, reports,
    reports_agree, same_report, socs_reported, summarize, window_averages_ascend, yields,
    ScenarioReport, ScenarioSummary, ScenarioTotals,
};
use crate::runtime::{
    normal_runtime, with_health, CommandMode, ComponentRuntime, Health, TelemetryMode,
};
use crate::sampling::{samples, Pass, Snapshot};
use crate::scalar::{wide_zero, zero, Scalar, Wide};
use crate::scenario::{
    events_from, stopped, ScenarioEvent, ScenarioJournal, SCENARIO_EVENT_CAPACITY,
};
use crate::setpoints::{is_event_window, SetpointEvent};
use crate::text::decimal_text;
use crate::time::{Moment, Span};
use crate::timeouts::{ahead, has_passed, SetpointAxis, TimeoutTracker};
use std::collections::{BTreeMap, BTreeSet};
use vstd::prelude::*;

verus! {

broadcast use vstd::std_specs::btree::group_btree_axioms;

/// Hands out component ids. Every site of an enterprise draws from one
/// allocator, so ids are unique across sites.
#[derive(Debug)]
pub struct IdAllocator {
    pub next: u64,
}

/// `after` is `before` once `id` was handed out.
pub open spec fn hands_out(before: IdAllocator, after: IdAllocator, id: u64) -> bool {
    id == before.next && after.next == id + 1
}

/// An id is handed out once: whatever a site draws later is larger.
pub proof fn drawn_ids_differ(
    before: IdAllocator,
    after: IdAllocator,
    first: u64,
    later: IdAllocator,
    last: IdAllocator,
    second: u64,
)
    requires
        hands_out(before, after, first),
        after.next <= later.next,
        hands_out(later, last, second),
    ensures
        first < second,
        after.next <= last.next,
{
}

impl IdAllocator {
    pub fn new() -> (out: Self)
        ensures
            out.next == FIRST_AUTO_ID,
    {
        IdAllocator { next: FIRST_AUTO_ID }
    }

    /// The next free id.
    pub fn take(&mut self) -> (out: u64)
        requires
            old(self).next < u64::MAX,
        ensures
            hands_out(*old(self), *final(self), out),
    {
        let id: u64 = self.next;
        self.next = id + 1;
        id
    }
}

/// The external AC environment.
#[derive(Clone, Copy, Debug, PartialEq)]
pub struct GridState {
    pub voltage_per_phase: (Scalar, Scalar, Scalar),
    pub frequency_hz: Scalar,
}

/// 230 V on each phase at 50 Hz.
pub open spec fn nominal_grid() -> GridState {
    let v = Scalar { bits: 0x4366_0000 };
    GridState { voltage_per_phase: (v, v, v), frequency_hz: Scalar { bits: 0x4248_0000 } }
}

impl Default for GridState {
    fn default() -> (out: Self)
        ensures
            out == nominal_grid(),
    {
        let v = Scalar { bits: 0x4366_0000 };
        GridState { voltage_per_phase: (v, v, v), frequency_hz: Scalar { bits: 0x4248_0000 } }
    }
}

/// How long the physics advances between two ticks; not at all when the clock
/// went back.
pub fn tick_gap(last: Moment, now: Moment) -> (out: Span)
    requires
        last.in_calendar(),
        now.in_calendar(),
    ensures
        out.nanos == (if now.nanos < last.nanos {
            0
        } else {
            now.nanos - last.nanos
        }),
{
    if now.nanos < last.nanos {
        Span { nanos: 0 }
    } else {
        Span { nanos: (now.nanos - last.nanos) as u128 }
    }
}

/// The components whose telemetry is recorded, in pass order.
pub open spec fn rows_of(components: Seq<Component>, recorded: Set<u64>) -> Seq<usize>
    decreases components.len(),
{
    if components.len() == 0 {
        Seq::empty()
    } else {
        let rest = rows_of(components.drop_last(), recorded);
        if recorded.contains(components.last().id) {
            rest.push((components.len() - 1) as usize)
        } else {
            rest
        }
    }
}

/// The components whose envelope is recorded and present, in pass order.
pub open spec fn bounds_rows_of(
    components: Seq<Component>,
    snapshots: Seq<Snapshot>,
    recorded: Set<u64>,
) -> Seq<usize>
    decreases components.len(),
{
    if components.len() == 0 || snapshots.len() == 0 {
        Seq::empty()
    } else {
        let rest = bounds_rows_of(components.drop_last(), snapshots.drop_last(), recorded);
        if recorded.contains(components.last().id) && snapshots.last().bounds is Some {
            rest.push((components.len() - 1) as usize)
        } else {
            rest
        }
    }
}

/// The registered ids.
pub open spec fn ids_of(components: Seq<Component>) -> Set<u64>
    decreases components.len(),
{
    if components.len() == 0 {
        Set::empty()
    } else {
        ids_of(components.drop_last()).insert(components.last().id)
    }
}

/// The ids of the components flagged in `enveloped`.
pub open spec fn enveloped_ids(components: Seq<Component>, enveloped: Seq<bool>) -> Set<u64>
    decreases components.len(),
{
    if components.len() == 0 || enveloped.len() == 0 {
        Set::empty()
    } else {
        let rest = enveloped_ids(components.drop_last(), enveloped.drop_last());
        if enveloped.last() {
            rest.insert(components.last().id)
        } else {
            rest
        }
    }
}

/// The files that a recording creates, in order: telemetry for every
/// component, and setpoints and bounds for each that reports an envelope.
pub open spec fn recording_files(components: Seq<Component>, enveloped: Seq<bool>) -> Seq<
    (Seq<char>, Seq<char>),
>
    decreases components.len(),
{
    if components.len() == 0 || enveloped.len() == 0 {
        Seq::empty()
    } else {
        let c = components.last();
        let rest = recording_files(components.drop_last(), enveloped.drop_last()).push(
            telemetry_file(c.id, c.category),
        );
        if enveloped.last() {
            rest.push(setpoints_file(c.id)).push(bounds_file(c.id))
        } else {
            rest
        }
    }
}

/// What each file is called and begins with.
pub open spec fn described(files: Seq<CsvFile>) -> Seq<(Seq<char>, Seq<char>)> {
    files.map_values(|f: CsvFile| (f.name@, f.header@))
}

/// What a sampler pass on a site hands on.
#[derive(Debug)]
pub struct SitePass {
    pub pass: Pass,
    /// Positions of the snapshots to append to telemetry files.
    pub telemetry_rows: Vec<usize>,
    /// Positions of the snapshots whose envelope to append to bounds files.
    pub bounds_rows: Vec<usize>,
}

/// A microgrid.
#[derive(Debug)]
pub struct MicrogridSite {
    pub registry: Registry,
    pub grid_state: GridState,
    /// The frequency comes from the enterprise's shared source.
    pub follows_grid_frequency: bool,
    pub physics_tick_ms: u64,
    /// Running streams end when it differs from what they started with.
    pub stream_cancel_epoch: u64,
    /// How far sample timestamps are shifted into the past.
    pub sample_lag_ms: u64,
    pub timeouts: TimeoutTracker,
    /// Components with an open telemetry file.
    pub telemetry_csv: BTreeSet<u64>,
    /// Components with an open setpoints file.
    pub setpoints_csv: BTreeSet<u64>,
    /// Components with an open bounds file.
    pub bounds_csv: BTreeSet<u64>,
}

impl MicrogridSite {
    /// No file is open.
    pub open spec fn records_nothing(self) -> bool {
        &&& self.telemetry_csv@ == Set::<u64>::empty()
        &&& self.setpoints_csv@ == Set::<u64>::empty()
        &&& self.bounds_csv@ == Set::<u64>::empty()
    }

    /// How many files are open.
    pub open spec fn open_files(self) -> nat {
        self.telemetry_csv@.len() + self.setpoints_csv@.len() + self.bounds_csv@.len()
    }

    pub fn new() -> (out: Self)
        ensures
            out.registry.wf(),
            out.registry.is_blank(),
            out.registry.scenario.is_fresh(),
            out.registry.main_meter_id is None,
            out.registry.version == 0,
            out.grid_state == nominal_grid(),
            !out.follows_grid_frequency,
            out.physics_tick_ms == 100,
            out.stream_cancel_epoch == 0,
            out.sample_lag_ms == 0,
            forall|a: SetpointAxis| #[trigger]
                out.timeouts.deadlines(a) == Map::<u64, u128>::empty(),
            out.records_nothing(),
    {
        MicrogridSite {
            registry: Registry::new(),
            grid_state: GridState::default(),
            follows_grid_frequency: false,
            physics_tick_ms: 100,
            stream_cancel_epoch: 0,
            sample_lag_ms: 0,
            timeouts: TimeoutTracker::new(),
            telemetry_csv: BTreeSet::new(),
            setpoints_csv: BTreeSet::new(),
            bounds_csv: BTreeSet::new(),
        }
    }

    pub fn sample_lag_ms(&self) -> (out: u64)
        ensures
            out == self.sample_lag_ms,
    {
        self.sample_lag_ms
    }

    pub fn set_sample_lag_ms(&mut self, ms: u64)
        ensures
            *final(self) == (MicrogridSite { sample_lag_ms: ms, ..*old(self) }),
    {
        self.sample_lag_ms = ms;
    }

    pub fn stream_cancel_epoch(&self) -> (out: u64)
        ensures
            out == self.stream_cancel_epoch,
    {
        self.stream_cancel_epoch
    }

    /// Ends every running stream: the epoch they captured is over.
    pub fn cancel_all_streams(&mut self)
        ensures
            final(self).stream_cancel_epoch != old(self).stream_cancel_epoch,
            final(self).stream_cancel_epoch == old(self).stream_cancel_epoch.wrapping_add(1),
            *final(self) == (MicrogridSite {
                stream_cancel_epoch: final(self).stream_cancel_epoch,
                ..*old(self)
            }),
    {
        self.stream_cancel_epoch = self.stream_cancel_epoch.wrapping_add(1);
    }

    /// From now on the frequency comes from the shared source.
    pub fn set_grid_frequency(&mut self)
        ensures
            *final(self) == (MicrogridSite { follows_grid_frequency: true, ..*old(self) }),
    {
        self.follows_grid_frequency = true;
    }

    /// The environment, with `shared_hz` for the frequency where the site
    /// follows the shared source.
    pub fn grid_state(&self, shared_hz: Scalar) -> (out: GridState)
        ensures
            out.voltage_per_phase == self.grid_state.voltage_per_phase,
            out.frequency_hz == (if self.follows_grid_frequency {
                shared_hz
            } else {
                self.grid_state.frequency_hz
            }),
    {
        if self.follows_grid_frequency {
            GridState {
                voltage_per_phase: self.grid_state.voltage_per_phase,
                frequency_hz: shared_hz,
            }
        } else {
            self.grid_state
        }
    }

    pub fn set_grid_state(&mut self, state: GridState)
        ensures
            *final(self) == (MicrogridSite { grid_state: state, ..*old(self) }),
    {
        self.grid_state = state;
    }

    pub fn physics_tick(&self) -> (out: Span)
        ensures
            out.nanos == self.physics_tick_ms * 1_000_000,
    {
        Span::from_millis(self.physics_tick_ms)
    }

    pub fn set_physics_tick_ms(&mut self, ms: u64)
        ensures
            *final(self) == (MicrogridSite { physics_tick_ms: ms, ..*old(self) }),
    {
        self.physics_tick_ms = ms;
    }

    /// Draws an id from the enterprise's allocator.
    pub fn next_id(&self, ids: &mut IdAllocator) -> (out: u64)
        requires
            old(ids).next < u64::MAX,
        ensures
            hands_out(*old(ids), *final(ids), out),
    {
        ids.take()
    }

    /// Arms the expiry of a setpoint; the latest one on an axis wins.
    pub fn add_timeout(&mut self, id: u64, axis: SetpointAxis, now: u128, lifetime: Span)
        requires
            now + lifetime.nanos <= u128::MAX,
        ensures
            *final(self) == (MicrogridSite { timeouts: final(self).timeouts, ..*old(self) }),
            forall|a: SetpointAxis| #[trigger]
                final(self).timeouts.deadlines(a) == (if a == axis {
                    old(self).timeouts.deadlines(a).insert(id, (now + lifetime.nanos) as u128)
                } else {
                    old(self).timeouts.deadlines(a)
                }),
    {
        self.timeouts.add(id, axis, now, lifetime);
    }

    /// Takes out the expiries that have passed and returns whose they were.
    pub fn drain_expired_timeouts(&mut self, now: u128) -> (out: Vec<(u64, SetpointAxis)>)
        ensures
            *final(self) == (MicrogridSite { timeouts: final(self).timeouts, ..*old(self) }),
            out@.no_duplicates(),
            forall|id: u64, a: SetpointAxis| #[trigger]
                out@.contains((id, a)) == has_passed(old(self).timeouts.deadlines(a), now, id),
            forall|a: SetpointAxis| #[trigger]
                final(self).timeouts.deadlines(a) == ahead(old(self).timeouts.deadlines(a), now),
    {
        self.timeouts.remove_expired(now)
    }

    /// The event that tells subscribers of a failed load.
    pub fn broadcast_config_error(&self, message: String, now: Moment) -> (out: SiteEvent)
        requires
            now.in_calendar(),
        ensures
            out == (SiteEvent::ConfigError {
                ts_ms: (now.nanos as int / 1_000_000) as i64,
                message,
            }),
    {
        SiteEvent::ConfigError { ts_ms: now.millis(), message }
    }

    /// The event for one sample of an aggregated stream.
    pub fn broadcast_microgrid_sample(
        &self,
        stream: &'static str,
        quantity: &'static str,
        unit: &'static str,
        ts_ms: i64,
        value: Option<Scalar>,
    ) -> (out: SiteEvent)
        ensures
            out == (SiteEvent::MicrogridSample { stream, quantity, unit, ts_ms, value }),
    {
        SiteEvent::MicrogridSample { stream, quantity, unit, ts_ms, value }
    }

    /// Changes the health of a component. An errored component also refuses
    /// commands, and a cleared error restores them.
    pub fn set_health(&mut self, id: u64, health: Health)
        ensures
            *final(self) == (MicrogridSite { registry: final(self).registry, ..*old(self) }),
            final(self).registry == (Registry {
                runtime: final(self).registry.runtime,
                ..old(self).registry
            }),
            final(self).registry.runtime@ == old(self).registry.runtime@.insert(
                id,
                with_health(old(self).registry.spec_runtime(id), health),
            ),
    {
        let runtime = self.registry.runtime_of(id).set_health(health);
        self.registry.set_runtime(id, runtime);
    }

    /// Forgets every component, scenario and recording, and frees the main
    /// meter. The environment, the version and the id allocator stay.
    pub fn reset(&mut self)
        requires
            old(self).registry.wf(),
        ensures
            final(self).registry.wf(),
            final(self).registry.is_blank(),
            final(self).registry.scenario.is_fresh(),
            final(self).registry.main_meter_id is None,
            final(self).registry.version == old(self).registry.version,
            final(self).records_nothing(),
            *final(self) == (MicrogridSite {
                registry: final(self).registry,
                telemetry_csv: final(self).telemetry_csv,
                setpoints_csv: final(self).setpoints_csv,
                bounds_csv: final(self).bounds_csv,
                ..*old(self)
            }),
    {
        self.registry.wipe();
        self.registry.scenario = ScenarioJournal::default();
        self.registry.main_meter_id = None;
        self.telemetry_csv.clear();
        self.setpoints_csv.clear();
        self.bounds_csv.clear();
    }

    /// Removes a component, its edges and everything kept for it; frees the
    /// main meter where it was that one. False where there was none.
    pub fn remove_component(&mut self, id: u64) -> (out: bool)
        requires
            old(self).registry.wf(),
        ensures
            final(self).registry.wf(),
            *final(self) == (MicrogridSite { registry: final(self).registry, ..*old(self) }),
            out == component_of(old(self).registry.components@, id) is Some,
            final(self).registry.components@ == without_component(
                old(self).registry.components@,
                id,
            ),
            final(self).registry.connections@ == edges_where(
                old(self).registry.connections@,
                |e: (u64, u64)| e.0 != id && e.1 != id,
            ),
            final(self).registry.histories@ == old(self).registry.histories@.remove(id),
            final(self).registry.runtime@ == old(self).registry.runtime@.remove(id),
            final(self).registry.setpoint_logs@ == old(self).registry.setpoint_logs@.remove(id),
            final(self).registry.name_overrides@ == old(self).registry.name_overrides@.remove(id),
            final(self).registry.main_meter_id == (if old(self).registry.main_meter_id == Some(
                id,
            ) {
                None
            } else {
                old(self).registry.main_meter_id
            }),
            final(self).registry.scenario == old(self).registry.scenario,
            final(self).registry.version == old(self).registry.version,
    {
        let was_present = self.registry.drop_component(id);
        self.registry.histories.remove(&id);
        self.registry.runtime.remove(&id);
        self.registry.setpoint_logs.remove(&id);
        self.registry.name_overrides.remove(&id);
        if let Some(main) = self.registry.main_meter_id {
            if main == id {
                self.registry.main_meter_id = None;
            }
        }
        assert(self.registry.histories@ =~= old(self).registry.histories@.remove(id));
        assert(self.registry.runtime@ =~= old(self).registry.runtime@.remove(id));
        assert(self.registry.setpoint_logs@ =~= old(self).registry.setpoint_logs@.remove(id));
        assert(self.registry.name_overrides@ =~= old(self).registry.name_overrides@.remove(id));
        was_present
    }
}

impl MicrogridSite {
    /// The edges between visible components.
    pub fn connections(&self) -> (out: Vec<(u64, u64)>)
        ensures
            out@ == edges_where(
                self.registry.connections@,
                |e: (u64, u64)| is_visible(self.registry.components@, e),
            ),
    {
        self.registry.visible_connections()
    }

    /// The edges with a hidden end.
    pub fn hidden_connections(&self) -> (out: Vec<(u64, u64)>)
        ensures
            out@ == edges_where(
                self.registry.connections@,
                |e: (u64, u64)| !is_visible(self.registry.components@, e),
            ),
    {
        self.registry.hidden_connections()
    }

    /// The far end of every edge from `parent`, hidden or not.
    pub fn children_of(&self, parent: u64) -> (out: Vec<u64>)
        ensures
            out@ == children(self.registry.connections@, parent),
    {
        self.registry.children_of(parent)
    }

    /// Logs a setpoint request. Returns the event for live subscribers, and
    /// whether the request goes to the component's setpoints file.
    pub fn log_setpoint(&mut self, id: u64, event: SetpointEvent) -> (out: (SiteEvent, bool))
        requires
            old(self).registry.wf(),
            event.ts.in_calendar(),
        ensures
            final(self).registry.wf(),
            *final(self) == (MicrogridSite { registry: final(self).registry, ..*old(self) }),
            logs_setpoint(old(self).registry, final(self).registry, id, event, out.0),
            out.1 == old(self).setpoints_csv@.contains(id),
    {
        let recorded = self.setpoints_csv.contains(&id);
        (self.registry.log_setpoint(id, event), recorded)
    }

    /// One pass of the history sampler, with the rows that open files get.
    pub fn record_history_snapshot(&mut self, now: Moment, snapshots: &Vec<Snapshot>) -> (out:
        SitePass)
        requires
            old(self).registry.wf(),
            now.in_calendar(),
            snapshots.len() == old(self).registry.components.len(),
        ensures
            final(self).registry.wf(),
            *final(self) == (MicrogridSite { registry: final(self).registry, ..*old(self) }),
            samples(old(self).registry, final(self).registry, now, snapshots@, out.pass),
            out.telemetry_rows@ == rows_of(
                old(self).registry.components@,
                old(self).telemetry_csv@,
            ),
            out.bounds_rows@ == bounds_rows_of(
                old(self).registry.components@,
                snapshots@,
                old(self).bounds_csv@,
            ),
    {
        let ghost comps = self.registry.components@;
        let ghost snaps = snapshots@;
        let mut telemetry_rows: Vec<usize> = Vec::new();
        let mut bounds_rows: Vec<usize> = Vec::new();
        let mut i: usize = 0;
        while i < snapshots.len()
            invariant
                i <= snapshots.len(),
                snapshots@ == snaps,
                self.registry.components@ == comps,
                snaps.len() == comps.len(),
                telemetry_rows@ == rows_of(comps.take(i as int), self.telemetry_csv@),
                bounds_rows@ == bounds_rows_of(
                    comps.take(i as int),
                    snaps.take(i as int),
                    self.bounds_csv@,
                ),
            decreases snapshots.len() - i,
        {
            assert(comps.take(i + 1).drop_last() =~= comps.take(i as int));
            assert(snaps.take(i + 1).drop_last() =~= snaps.take(i as int));
            let id: u64 = self.registry.components[i].id;
            if self.telemetry_csv.contains(&id) {
                telemetry_rows.push(i);
            }
            if self.bounds_csv.contains(&id) && snapshots[i].bounds.is_some() {
                bounds_rows.push(i);
            }
            i = i + 1;
        }
        assert(comps.take(comps.len() as int) =~= comps);
        assert(snaps.take(snaps.len() as int) =~= snaps);
        let pass = self.registry.record_history_snapshot(now, snapshots);
        SitePass { pass, telemetry_rows, bounds_rows }
    }

    /// The files that a recording creates. `enveloped` tells for each
    /// component, in registration order, whether it reports an envelope.
    pub fn scenario_csv_files(&self, enveloped: &Vec<bool>) -> (out: Vec<CsvFile>)
        requires
            enveloped.len() == self.registry.components.len(),
        ensures
            described(out@) == recording_files(self.registry.components@, enveloped@),
    {
        let ghost comps = self.registry.components@;
        let mut out: Vec<CsvFile> = Vec::new();
        let mut i: usize = 0;
        assert(described(out@) =~= recording_files(comps.take(0), enveloped@.take(0)));
        while i < enveloped.len()
            invariant
                i <= enveloped.len(),
                comps == self.registry.components@,
                enveloped.len() == comps.len(),
                described(out@) == recording_files(
                    comps.take(i as int),
                    enveloped@.take(i as int),
                ),
            decreases enveloped.len() - i,
        {
            assert(comps.take(i + 1).drop_last() =~= comps.take(i as int));
            assert(enveloped@.take(i + 1).drop_last() =~= enveloped@.take(i as int));
            let ghost before = described(out@);
            let id: u64 = self.registry.components[i].id;
            let category = self.registry.components[i].category;
            out.push(CsvFile::telemetry(id, category));
            let ghost one = before.push(telemetry_file(id, category));
            assert(described(out@) =~= one);
            if enveloped[i] {
                out.push(CsvFile::setpoints(id));
                out.push(CsvFile::bounds(id));
                assert(described(out@) =~= one.push(setpoints_file(id)).push(bounds_file(id)));
            }
            i = i + 1;
        }
        assert(comps.take(comps.len() as int) =~= comps);
        assert(enveloped@.take(enveloped@.len() as int) =~= enveloped@);
        out
    }

    /// Takes note that the recording's files are open, in place of any earlier
    /// recording, and returns how many files that is.
    pub fn scenario_open_csv(&mut self, enveloped: &Vec<bool>) -> (out: u128)
        requires
            enveloped.len() == old(self).registry.components.len(),
        ensures
            *final(self) == (MicrogridSite {
                telemetry_csv: final(self).telemetry_csv,
                setpoints_csv: final(self).setpoints_csv,
                bounds_csv: final(self).bounds_csv,
                ..*old(self)
            }),
            final(self).telemetry_csv@ == ids_of(old(self).registry.components@),
            final(self).setpoints_csv@ == enveloped_ids(
                old(self).registry.components@,
                enveloped@,
            ),
            final(self).bounds_csv@ == final(self).setpoints_csv@,
            out == final(self).open_files(),
    {
        let ghost comps = self.registry.components@;
        let mut telemetry: BTreeSet<u64> = BTreeSet::new();
        let mut setpoints: BTreeSet<u64> = BTreeSet::new();
        let mut bounds: BTreeSet<u64> = BTreeSet::new();
        let mut i: usize = 0;
        while i < enveloped.len()
            invariant
                i <= enveloped.len(),
                comps == self.registry.components@,
                enveloped.len() == comps.len(),
                telemetry@ == ids_of(comps.take(i as int)),
                setpoints@ == enveloped_ids(comps.take(i as int), enveloped@.take(i as int)),
                bounds@ == setpoints@,
            decreases enveloped.len() - i,
        {
            assert(comps.take(i + 1).drop_last() =~= comps.take(i as int));
            assert(enveloped@.take(i + 1).drop_last() =~= enveloped@.take(i as int));
            let id: u64 = self.registry.components[i].id;
            telemetry.insert(id);
            if enveloped[i] {
                setpoints.insert(id);
                bounds.insert(id);
            }
            i = i + 1;
        }
        assert(comps.take(comps.len() as int) =~= comps);
        assert(enveloped@.take(enveloped@.len() as int) =~= enveloped@);
        let count: u128 = telemetry.len() as u128 + setpoints.len() as u128 + bounds.len() as u128;
        self.telemetry_csv = telemetry;
        self.setpoints_csv = setpoints;
        self.bounds_csv = bounds;
        count
    }

    /// Takes note that every file is closed, and returns how many there were.
    pub fn scenario_close_csv(&mut self) -> (out: u128)
        ensures
            *final(self) == (MicrogridSite {
                telemetry_csv: final(self).telemetry_csv,
                setpoints_csv: final(self).setpoints_csv,
                bounds_csv: final(self).bounds_csv,
                ..*old(self)
            }),
            final(self).records_nothing(),
            out == old(self).open_files(),
    {
        let count: u128 = self.telemetry_csv.len() as u128 + self.setpoints_csv.len() as u128
            + self.bounds_csv.len() as u128;
        self.telemetry_csv.clear();
        self.setpoints_csv.clear();
        self.bounds_csv.clear();
        count
    }

    /// Ends the scenario and its recording; the first stop wins.
    pub fn scenario_stop(&mut self, now: Moment)
        requires
            old(self).registry.wf(),
            now.in_calendar(),
        ensures
            final(self).registry.wf(),
            final(self).records_nothing(),
            *final(self) == (MicrogridSite {
                registry: final(self).registry,
                telemetry_csv: final(self).telemetry_csv,
                setpoints_csv: final(self).setpoints_csv,
                bounds_csv: final(self).bounds_csv,
                ..*old(self)
            }),
            final(self).registry == (Registry {
                scenario: stopped(old(self).registry.scenario, now),
                ..old(self).registry
            }),
    {
        self.registry.scenario.stop(now);
        let _ = self.scenario_close_csv();
    }
}

impl MicrogridSite {
    /// Counts a mutation; the event tells subscribers.
    pub fn bump_version(&mut self) -> (out: (u64, SiteEvent))
        requires
            old(self).registry.version < u64::MAX,
        ensures
            *final(self) == (MicrogridSite { registry: final(self).registry, ..*old(self) }),
            final(self).registry == (Registry { version: out.0, ..old(self).registry }),
            out.0 == old(self).registry.version + 1,
            out.1 == (SiteEvent::TopologyChanged { version: out.0 }),
    {
        self.registry.bump_version()
    }

    pub fn version(&self) -> (out: u64)
        ensures
            out == self.registry.version,
    {
        self.registry.version
    }

    pub fn main_meter_id(&self) -> (out: Option<u64>)
        ensures
            out == self.registry.main_meter_id,
    {
        self.registry.main_meter_id
    }

    /// Claims the main-meter flag. Refused while another meter holds it.
    pub fn set_main_meter(&mut self, id: u64) -> (out: Result<(), String>)
        ensures
            *final(self) == (MicrogridSite { registry: final(self).registry, ..*old(self) }),
            match old(self).registry.main_meter_id {
                Some(existing) if existing != id => {
                    &&& out matches Err(e) && e@ == "main meter already set to "@ + decimal_text(
                        existing as nat,
                    ) + "; can't claim "@ + decimal_text(id as nat)
                    &&& final(self).registry == old(self).registry
                },
                _ => {
                    &&& out is Ok
                    &&& final(self).registry == (Registry {
                        main_meter_id: Some(id),
                        ..old(self).registry
                    })
                },
            },
    {
        self.registry.set_main_meter(id)
    }

    /// Registers a component; its knobs start at normal unless they were set
    /// before.
    pub fn register(&mut self, c: Component)
        requires
            old(self).registry.wf(),
        ensures
            final(self).registry.wf(),
            *final(self) == (MicrogridSite { registry: final(self).registry, ..*old(self) }),
            final(self).registry == (Registry {
                components: final(self).registry.components,
                runtime: final(self).registry.runtime,
                ..old(self).registry
            }),
            final(self).registry.components@ == old(self).registry.components@.push(c),
            final(self).registry.runtime@ == (if old(self).registry.runtime@.contains_key(c.id) {
                old(self).registry.runtime@
            } else {
                old(self).registry.runtime@.insert(c.id, normal_runtime())
            }),
    {
        self.registry.register(c);
    }

    /// Adds an edge.
    pub fn connect(&mut self, parent: u64, child: u64)
        ensures
            *final(self) == (MicrogridSite { registry: final(self).registry, ..*old(self) }),
            final(self).registry == (Registry {
                connections: final(self).registry.connections,
                ..old(self).registry
            }),
            final(self).registry.connections@ == old(self).registry.connections@.push(
                (parent, child),
            ),
    {
        self.registry.connect(parent, child);
    }

    /// Drops every edge from `parent` to `child`; false where there was none.
    pub fn disconnect(&mut self, parent: u64, child: u64) -> (out: bool)
        ensures
            *final(self) == (MicrogridSite { registry: final(self).registry, ..*old(self) }),
            final(self).registry == (Registry {
                connections: final(self).registry.connections,
                ..old(self).registry
            }),
            final(self).registry.connections@ == edges_where(
                old(self).registry.connections@,
                |e: (u64, u64)| e != (parent, child),
            ),
            out == old(self).registry.connections@.contains((parent, child)),
    {
        self.registry.disconnect(parent, child)
    }

    /// The component registered last under `id`.
    pub fn get(&self, id: u64) -> (out: Option<&Component>)
        ensures
            match component_of(self.registry.components@, id) {
                Some(c) => out == Some(&c),
                None => out is None,
            },
    {
        self.registry.get(id)
    }

    /// The components in registration order, which is tick order.
    pub fn components(&self) -> (out: &Vec<Component>)
        ensures
            *out == self.registry.components,
    {
        &self.registry.components
    }

    /// How many edges end at `id`.
    pub fn parent_count(&self, id: u64) -> (out: usize)
        ensures
            out == parents(self.registry.connections@, id),
    {
        self.registry.parent_count(id)
    }

    /// The sum of the active-power envelopes of a component's direct children.
    /// `envelopes` holds the envelope of each component that reports one.
    /// None where no registered child reports one.
    pub fn aggregate_child_bounds<F: Fn(Scalar, Scalar) -> Scalar>(
        &self,
        parent: u64,
        envelopes: &BTreeMap<u64, VecBounds>,
        plus: F,
    ) -> (out: Option<VecBounds>)
        requires
            forall|a: Scalar, b: Scalar| call_requires(plus, (a, b)),
        ensures
            ({
                let found = reported(
                    children(self.registry.connections@, parent),
                    self.registry.components@,
                    envelopes@,
                );
                match out {
                    None => found.len() == 0,
                    Some(sum) => found.len() > 0 && is_sum(plus, found, sum@),
                }
            }),
    {
        self.registry.aggregate_child_bounds(parent, envelopes, plus)
    }

    /// Overrides the display name of a component.
    pub fn rename(&mut self, id: u64, name: String)
        ensures
            *final(self) == (MicrogridSite { registry: final(self).registry, ..*old(self) }),
            final(self).registry == (Registry {
                name_overrides: final(self).registry.name_overrides,
                ..old(self).registry
            }),
            final(self).registry.name_overrides@ == old(self).registry.name_overrides@.insert(
                id,
                name,
            ),
    {
        self.registry.rename(id, name);
    }

    /// The name to show: the override, else the component's own, else none.
    pub fn display_name(&self, id: u64) -> (out: Option<String>)
        ensures
            out is Some == self.registry.spec_display_name(id) is Some,
            out matches Some(n) ==> self.registry.spec_display_name(id) == Some(n@),
    {
        self.registry.display_name(id)
    }

    pub fn runtime_of(&self, id: u64) -> (out: ComponentRuntime)
        ensures
            out == self.registry.spec_runtime(id),
    {
        self.registry.runtime_of(id)
    }

    pub fn set_telemetry_mode(&mut self, id: u64, mode: TelemetryMode)
        ensures
            *final(self) == (MicrogridSite { registry: final(self).registry, ..*old(self) }),
            final(self).registry == (Registry {
                runtime: final(self).registry.runtime,
                ..old(self).registry
            }),
            final(self).registry.runtime@ == old(self).registry.runtime@.insert(
                id,
                (ComponentRuntime { telemetry: mode, ..old(self).registry.spec_runtime(id) }),
            ),
    {
        self.registry.set_telemetry_mode(id, mode);
    }

    pub fn set_command_mode(&mut self, id: u64, mode: CommandMode)
        ensures
            *final(self) == (MicrogridSite { registry: final(self).registry, ..*old(self) }),
            final(self).registry == (Registry {
                runtime: final(self).registry.runtime,
                ..old(self).registry
            }),
            final(self).registry.runtime@ == old(self).registry.runtime@.insert(
                id,
                (ComponentRuntime { command: mode, ..old(self).registry.spec_runtime(id) }),
            ),
    {
        self.registry.set_command_mode(id, mode);
    }

    /// The recent setpoint events of one component.
    pub fn setpoints_window(&self, id: u64, since: Moment) -> (out: Vec<SetpointEvent>)
        ensures
            self.registry.setpoint_logs@.contains_key(id) ==> is_event_window(
                self.registry.setpoints(id),
                since,
                out@,
            ),
            !self.registry.setpoint_logs@.contains_key(id) ==> out@.len() == 0,
    {
        self.registry.setpoints_window(id, since)
    }

    /// A window of one component's history of one metric; absent where none
    /// was recorded.
    pub fn history_window(&self, id: u64, metric: Metric, since: Moment) -> (out: Option<
        Vec<Sample>,
    >)
        ensures
            out is Some == self.registry.has_ring(id, metric),
            out matches Some(w) ==> is_sample_window(
                self.registry.ring(id, metric),
                since,
                w@,
            ),
    {
        self.registry.history_window(id, metric, since)
    }

    /// The metrics that a component has history of.
    pub fn history_metrics(&self, id: u64) -> (out: Vec<Metric>)
        ensures
            forall|m: Metric| #[trigger] out@.contains(m) == self.registry.has_ring(id, m),
            out@.no_duplicates(),
    {
        self.registry.history_metrics(id)
    }

    /// Begins a fresh scenario.
    pub fn scenario_start(&mut self, name: String, now: Moment)
        requires
            old(self).registry.wf(),
            now.in_calendar(),
        ensures
            final(self).registry.wf(),
            *final(self) == (MicrogridSite { registry: final(self).registry, ..*old(self) }),
            final(self).registry == (Registry {
                scenario: final(self).registry.scenario,
                ..old(self).registry
            }),
            final(self).registry.scenario.name == Some(name),
            final(self).registry.scenario.started_at == Some(now),
            final(self).registry.scenario.ended_at is None,
            final(self).registry.scenario.events@ == Seq::<ScenarioEvent>::empty(),
            final(self).registry.scenario.next_id == old(self).registry.scenario.next_id,
            final(self).registry.scenario.peak_main_meter_active_w == zero(),
    {
        self.registry.scenario.start(name, now);
    }

    /// Appends a journal event and returns its id.
    pub fn scenario_record(&mut self, kind: String, payload: String, now: Moment) -> (id: u64)
        requires
            old(self).registry.wf(),
            old(self).registry.scenario.next_id < u64::MAX,
        ensures
            final(self).registry.wf(),
            *final(self) == (MicrogridSite { registry: final(self).registry, ..*old(self) }),
            final(self).registry == (Registry {
                scenario: final(self).registry.scenario,
                ..old(self).registry
            }),
            id == old(self).registry.scenario.next_id,
            final(self).registry.scenario == (ScenarioJournal {
                next_id: (id + 1) as u64,
                events: final(self).registry.scenario.events,
                ..old(self).registry.scenario
            }),
            final(self).registry.scenario.events@ == ring_push(
                old(self).registry.scenario.events@,
                SCENARIO_EVENT_CAPACITY as nat,
                ScenarioEvent { id, ts: now, kind, payload },
            ),
    {
        self.registry.scenario.record(kind, payload, now)
    }

    /// How long the scenario has run.
    pub fn scenario_elapsed(&self, now: Moment) -> (out: Span)
        requires
            self.registry.wf(),
            now.in_calendar(),
        ensures
            out.nanos == self.registry.scenario.spec_elapsed(now),
    {
        self.registry.scenario.elapsed(now)
    }

    /// The scenario's lifecycle state.
    pub fn scenario_summary(&self, now: Moment) -> (out: ScenarioSummary)
        requires
            self.registry.wf(),
            now.in_calendar(),
        ensures
            is_summary(self.registry.scenario, now, out),
    {
        summarize(&self.registry.scenario, now)
    }

    /// The first `limit` events with an id of at least `since`.
    pub fn scenario_events_since(&self, since: u64, limit: usize) -> (out: Vec<ScenarioEvent>)
        ensures
            out@ == events_from(self.registry.scenario.events@, since, limit as nat),
    {
        self.registry.scenario.events_since(since, limit)
    }

    /// `out` reports the site's scenario and its batteries' current charge.
    pub open spec fn is_report<
        P: Fn(Wide, Wide) -> Wide,
        D: Fn(Wide, u64) -> Wide,
        M: Fn(&Vec<Scalar>) -> Wide,
    >(
        self,
        totals: ScenarioTotals,
        telemetry: Seq<Telemetry>,
        now: Moment,
        plus: P,
        over: D,
        mean: M,
        out: ScenarioReport,
    ) -> bool {
        &&& reports(
            self.registry.scenario,
            totals,
            self.registry.main_meter_id,
            now,
            plus,
            over,
            out,
        )
        &&& socs_reported(
            battery_socs(self.registry.components@, telemetry),
            mean,
            out.soc_stats,
        )
    }

    /// The scenario's report. There is one telemetry per registered component,
    /// in registration order.
    pub fn scenario_report<
        P: Fn(Wide, Wide) -> Wide,
        D: Fn(Wide, u64) -> Wide,
        M: Fn(&Vec<Scalar>) -> Wide,
    >(
        &self,
        totals: &ScenarioTotals,
        telemetry: &Vec<Telemetry>,
        now: Moment,
        plus: P,
        over: D,
        mean: M,
    ) -> (out: ScenarioReport)
        requires
            self.registry.wf(),
            now.in_calendar(),
            telemetry.len() == self.registry.components.len(),
            forall|a: Wide, b: Wide| call_requires(plus, (a, b)),
            forall|s: Wide, n: u64| n > 0 ==> call_requires(over, (s, n)),
            forall|v: &Vec<Scalar>| call_requires(mean, (v,)),
        ensures
            self.is_report(*totals, telemetry@, now, plus, over, mean, out),
    {
        let socs = self.registry.current_socs(telemetry);
        build_report(
            &self.registry.scenario,
            totals,
            self.registry.main_meter_id,
            &socs,
            now,
            plus,
            over,
            mean,
        )
    }
}

impl Default for MicrogridSite {
    fn default() -> (out: Self)
        ensures
            out.registry.wf(),
            out.registry.is_blank(),
            out.registry.scenario.is_fresh(),
            out.registry.main_meter_id is None,
            out.grid_state == nominal_grid(),
            out.records_nothing(),
    {
        MicrogridSite::new()
    }
}

/// What a site reports holds together: the totals sum the reported lists, the
/// statistics are absent exactly where no battery publishes its charge, the
/// window averages run forward, the main meter is the site's, and asking again
/// gives the same report.
pub proof fn report_holds_together<
    P: Fn(Wide, Wide) -> Wide,
    D: Fn(Wide, u64) -> Wide,
    M: Fn(&Vec<Scalar>) -> Wide,
>(
    site: MicrogridSite,
    totals: ScenarioTotals,
    telemetry: Seq<Telemetry>,
    now: Moment,
    plus: P,
    over: D,
    mean: M,
    out: ScenarioReport,
    again: ScenarioReport,
)
    requires
        totals.wf(),
        telemetry.len() == site.registry.components@.len(),
        is_single_valued(plus),
        is_single_quotient(over),
        is_single_mean(mean),
        site.is_report(totals, telemetry, now, plus, over, mean, out),
        site.is_report(totals, telemetry, now, plus, over, mean, again),
    ensures
        folds(plus, wide_zero(), charges(out.per_battery@), out.total_battery_charged_wh),
        folds(plus, wide_zero(), discharges(out.per_battery@), out.total_battery_discharged_wh),
        folds(plus, wide_zero(), yields(out.per_pv@), out.total_pv_produced_wh),
        out.soc_stats is None <==> (forall|i: int|
            0 <= i < telemetry.len() ==> !publishes_soc(
                #[trigger] site.registry.components@[i],
                telemetry[i],
            )),
        forall|i: int, j: int|
            0 <= i < j < out.main_meter_window_averages@.len() ==> (
            #[trigger] out.main_meter_window_averages@[i]).window_start.nanos < (
            #[trigger] out.main_meter_window_averages@[j]).window_start.nanos,
        out.main_meter_id == site.registry.main_meter_id,
        same_report(out, again),
{
    let journal = site.registry.scenario;
    let meter = site.registry.main_meter_id;
    let socs = battery_socs(site.registry.components@, telemetry);
    socs_need_a_battery(site.registry.components@, telemetry);
    window_averages_ascend(journal, totals, meter, now, plus, over, out);
    reports_agree(journal, totals, meter, socs, now, plus, over, mean, out, again);
}

/// The rows of a pass are the places of the components whose files are open, in
/// order.
pub proof fn rows_are_the_recorded_components(components: Seq<Component>, recorded: Set<u64>)
    requires
        components.len() <= usize::MAX,
    ensures
        forall|i: usize| #[trigger]
            rows_of(components, recorded).contains(i) <==> i < components.len()
                && recorded.contains(components[i as int].id),
        forall|a: int, b: int|
            0 <= a < b < rows_of(components, recorded).len() ==> rows_of(components, recorded)[a]
                < rows_of(components, recorded)[b],
    decreases components.len(),
{
    if components.len() > 0 {
        let init = components.drop_last();
        let last = components.last();
        let rest = rows_of(init, recorded);
        let rows = rows_of(components, recorded);
        rows_are_the_recorded_components(init, recorded);
        let n = (components.len() - 1) as usize;
        assert forall|a: int| 0 <= a < rest.len() implies #[trigger] rest[a] < n by {
            assert(rest.contains(rest[a]));
        }
        assert forall|i: usize| #[trigger] rows.contains(i) <==> i < components.len()
            && recorded.contains(components[i as int].id) by {
            if rest.contains(i) {
                let k = choose|k: int| 0 <= k < rest.len() && rest[k] == i;
                assert(rows[k] == i);
            }
            if rows.contains(i) {
                let k = choose|k: int| 0 <= k < rows.len() && rows[k] == i;
                if k < rest.len() {
                    assert(rest[k] == i);
                    assert(rest.contains(i));
                }
            }
            if recorded.contains(last.id) {
                assert(rows[rest.len() as int] == n);
            }
        }
    }
}

/// The bounds rows of a pass are the places of the components whose bounds files
/// are open and that report an envelope.
pub proof fn bounds_rows_have_envelopes(
    components: Seq<Component>,
    snapshots: Seq<Snapshot>,
    recorded: Set<u64>,
)
    requires
        components.len() <= usize::MAX,
        components.len() == snapshots.len(),
    ensures
        forall|i: usize| #[trigger]
            bounds_rows_of(components, snapshots, recorded).contains(i) <==> i < components.len()
                && recorded.contains(components[i as int].id) && snapshots[i as int].bounds is Some,
    decreases components.len(),
{
    if components.len() > 0 {
        let init = components.drop_last();
        let last = components.last();
        let rest = bounds_rows_of(init, snapshots.drop_last(), recorded);
        let rows = bounds_rows_of(components, snapshots, recorded);
        bounds_rows_have_envelopes(init, snapshots.drop_last(), recorded);
        let n = (components.len() - 1) as usize;
        assert forall|i: usize| #[trigger] rows.contains(i) <==> i < components.len()
            && recorded.contains(components[i as int].id) && snapshots[i as int].bounds is Some by {
            if rest.contains(i) {
                let k = choose|k: int| 0 <= k < rest.len() && rest[k] == i;
                assert(rows[k] == i);
            }
            if rows.contains(i) {
                let k = choose|k: int| 0 <= k < rows.len() && rows[k] == i;
                if k < rest.len() {
                    assert(rest[k] == i);
                    assert(rest.contains(i));
                }
            }
            if recorded.contains(last.id) && snapshots.last().bounds is Some {
                assert(rows[rest.len() as int] == n);
            }
        }
    }
}

/// Recording opens a telemetry file for every component, and a setpoints and a
/// bounds file for those with an envelope.
pub proof fn recorded_ids_are_the_components(
    components: Seq<Component>,
    enveloped: Seq<bool>,
    id: u64,
)
    requires
        components.len() == enveloped.len(),
    ensures
        ids_of(components).contains(id) <==> exists|i: int|
            0 <= i < components.len() && (#[trigger] components[i]).id == id,
        enveloped_ids(components, enveloped).contains(id) <==> exists|i: int|
            0 <= i < components.len() && (#[trigger] components[i]).id == id && enveloped[i],
    decreases components.len(),
{
    if components.len() > 0 {
        let init = components.drop_last();
        let flags = enveloped.drop_last();
        recorded_ids_are_the_components(init, flags, id);
        let n = components.len() - 1;
        if exists|i: int| 0 <= i < init.len() && (#[trigger] init[i]).id == id {
            let i = choose|i: int| 0 <= i < init.len() && (#[trigger] init[i]).id == id;
            assert(components[i].id == id);
        }
        if exists|i: int| 0 <= i < init.len() && (#[trigger] init[i]).id == id && flags[i] {
            let i = choose|i: int|
                0 <= i < init.len() && (#[trigger] init[i]).id == id && flags[i];
            assert(components[i].id == id && enveloped[i]);
        }
        if exists|i: int| 0 <= i < components.len() && (#[trigger] components[i]).id == id {
            let i = choose|i: int| 0 <= i < components.len() && (#[trigger] components[i]).id == id;
            if i < n {
                assert(init[i].id == id);
            }
        }
        if exists|i: int|
            0 <= i < components.len() && (#[trigger] components[i]).id == id && enveloped[i] {
            let i = choose|i: int|
                0 <= i < components.len() && (#[trigger] components[i]).id == id && enveloped[i];
            if i < n {
                assert(init[i].id == id && flags[i]);
            }
        }
        assert(components[n] == components.last());
    }
}

/// One more component adds its telemetry file to a recording, and its setpoints
/// and bounds files where it has an envelope.
pub proof fn one_more_component_adds_its_files(
    components: Seq<Component>,
    enveloped: Seq<bool>,
    c: Component,
    flag: bool,
)
    requires
        components.len() == enveloped.len(),
    ensures
        ({
            let before = recording_files(components, enveloped);
            let after = recording_files(components.push(c), enveloped.push(flag));
            &&& after[before.len() as int] == telemetry_file(c.id, c.category)
            &&& !flag ==> after.len() == before.len() + 1
            &&& flag ==> after.len() == before.len() + 3
            &&& flag ==> after[before.len() as int + 1] == setpoints_file(c.id)
            &&& flag ==> after[before.len() as int + 2] == bounds_file(c.id)
            &&& forall|i: int| 0 <= i < before.len() ==> #[trigger] after[i] == before[i]
        }),
{
    assert(components.push(c).drop_last() =~= components);
    assert(enveloped.push(flag).drop_last() =~= enveloped);
}

/// Ids are drawn one after the other, without gaps.
pub proof fn ids_are_drawn_in_turn(
    before: IdAllocator,
    between: IdAllocator,
    after: IdAllocator,
    first: u64,
    second: u64,
)
    requires
        hands_out(before, between, first),
        hands_out(between, after, second),
    ensures
        first == before.next,
        second == first + 1,
{
}

/// A site that records nothing has no file open.
pub proof fn nothing_recorded_leaves_no_file_open(site: MicrogridSite)
    requires
        site.records_nothing(),
    ensures
        site.open_files() == 0,
        forall|id: u64|
            #![trigger site.telemetry_csv@.contains(id)]
            #![trigger site.setpoints_csv@.contains(id)]
            #![trigger site.bounds_csv@.contains(id)]
            !site.telemetry_csv@.contains(id) && !site.setpoints_csv@.contains(id)
                && !site.bounds_csv@.contains(id),
{
}

/// A tick covers the time since the last one, and none where the clock went
/// back.
pub proof fn tick_covers_the_time_between(last: Moment, now: Moment, out: Span)
    requires
        call_ensures(tick_gap, (last, now), out),
    ensures
        last.nanos <= now.nanos ==> last.nanos + out.nanos == now.nanos,
        now.nanos < last.nanos ==> out.nanos == 0,
{
}

/// A site shows its own voltages, and the shared frequency exactly where it
/// follows that.
pub proof fn grid_follows_the_shared_frequency(
    site: &MicrogridSite,
    shared_hz: Scalar,
    out: GridState,
)
    requires
        call_ensures(MicrogridSite::grid_state, (site, shared_hz), out),
    ensures
        out.voltage_per_phase == site.grid_state.voltage_per_phase,
        site.follows_grid_frequency ==> out.frequency_hz == shared_hz,
        !site.follows_grid_frequency ==> out.frequency_hz == site.grid_state.frequency_hz,
{
}

} // verus!
