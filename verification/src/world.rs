//! A stand-alone simulated world with its own id range.

use crate::bounds::{is_sum, VecBounds};
use crate::component::{Telemetry, FIRST_AUTO_ID};
use crate::events::SiteEvent;
use crate::fold::{is_single_valued, sum_of};
use crate::history::{is_sample_window, ring_push, Metric, Sample};
use crate::registry::{
    battery_socs, children, component_of, edges_where, logs_setpoint, parents, publishes_soc,
    reported, socs_need_a_battery, without_component, Component, Registry,
};
use crate::report::{
    compute_soc_stats, energy_adds_up, energy_agrees, energy_report, is_single_mean, is_summary,
    socs_agree, socs_reported, start_of_window, summarize, totals_energy, window_start,
    PerBatteryReport, PerPvReport, ScenarioSummary, SocStats,
};
use crate::runtime::{normal_runtime, CommandMode, ComponentRuntime, Health, TelemetryMode};
use crate::sampling::{samples, Pass, Snapshot};
use crate::scalar::{wide_zero, zero, Scalar, Wide};
use crate::scenario::{
    events_from, stopped, ScenarioEvent, ScenarioJournal, SCENARIO_EVENT_CAPACITY,
};
use crate::setpoints::{is_event_window, SetpointEvent};
use crate::site::{nominal_grid, GridState};
use crate::text::decimal_text;
use crate::time::{Moment, Span, FIRST_SECOND, LAST_SECOND};
use crate::timeouts::{ahead, has_passed, SetpointAxis, TimeoutTracker};
use std::collections::BTreeMap;
use vstd::prelude::*;

verus! {

broadcast use vstd::std_specs::btree::group_btree_axioms;

/// `ids` and, behind them, each of `extra` that is not there yet.
pub open spec fn joined_with(ids: Seq<u64>, extra: Seq<u64>) -> Seq<u64>
    decreases extra.len(),
{
    if extra.len() == 0 {
        ids
    } else {
        let before = joined_with(ids, extra.drop_last());
        if before.contains(extra.last()) {
            before
        } else {
            before.push(extra.last())
        }
    }
}

pub(crate) fn join_with(ids: Vec<u64>, extra: &Vec<u64>) -> (out: Vec<u64>)
    ensures
        out@ == joined_with(ids@, extra@),
{
    let ghost start = ids@;
    let mut out = ids;
    let mut i: usize = 0;
    assert(extra@.take(0) =~= Seq::<u64>::empty());
    while i < extra.len()
        invariant
            i <= extra.len(),
            out@ == joined_with(start, extra@.take(i as int)),
        decreases extra.len() - i,
    {
        assert(extra@.take(i + 1).drop_last() =~= extra@.take(i as int));
        let id = extra[i];
        let mut seen = false;
        let mut k: usize = 0;
        while k < out.len()
            invariant
                k <= out.len(),
                seen == exists|j: int| 0 <= j < k && out@[j] == id,
            decreases out.len() - k,
        {
            if out[k] == id {
                seen = true;
                assert(out@[k as int] == id);
            }
            k = k + 1;
        }
        if !seen {
            out.push(id);
        }
        i = i + 1;
    }
    assert(extra@.take(extra@.len() as int) =~= extra@);
    out
}

/// Joining ids without repetition leaves them without.
pub proof fn joining_repeats_nothing(ids: Seq<u64>, extra: Seq<u64>)
    requires
        ids.no_duplicates(),
    ensures
        joined_with(ids, extra).no_duplicates(),
    decreases extra.len(),
{
    if extra.len() > 0 {
        joining_repeats_nothing(ids, extra.drop_last());
    }
}

/// The main meter's highest reading of one window.
#[derive(Clone, Copy, Debug, PartialEq, Eq, Structural)]
pub struct WindowPeak {
    pub start_secs: i64,
    pub peak_w: Wide,
}

/// The peak of one window.
#[derive(Clone, Copy, Debug, PartialEq, Eq, Structural)]
pub struct WindowPeakEntry {
    pub window_start: Moment,
    pub peak_w: Wide,
}

/// What a world accumulates over a scenario besides its journal.
#[derive(Debug)]
pub struct ScenarioTotals {
    pub per_battery: Vec<PerBatteryReport>,
    pub per_pv: Vec<PerPvReport>,
    pub window_peaks: Vec<WindowPeak>,
}

impl ScenarioTotals {
    /// The windows start at instants of the calendar and stand in order of
    /// time, each once.
    pub open spec fn wf(self) -> bool {
        &&& forall|i: int|
            0 <= i < self.window_peaks@.len() ==> FIRST_SECOND <= (
            #[trigger] self.window_peaks@[i]).start_secs <= LAST_SECOND
        &&& forall|i: int, j: int|
            0 <= i < j < self.window_peaks@.len() ==> (#[trigger] self.window_peaks@[i]).start_secs
                < (#[trigger] self.window_peaks@[j]).start_secs
    }
}

impl Default for ScenarioTotals {
    fn default() -> (out: Self)
        ensures
            out.wf(),
            out.per_battery@.len() == 0,
            out.per_pv@.len() == 0,
            out.window_peaks@.len() == 0,
    {
        ScenarioTotals { per_battery: Vec::new(), per_pv: Vec::new(), window_peaks: Vec::new() }
    }
}

/// The report of a world's scenario.
#[derive(Debug)]
pub struct ScenarioReport {
    pub scenario_elapsed: Span,
    pub peak_main_meter_w: Scalar,
    pub main_meter_id: Option<u64>,
    pub total_battery_charged_wh: Wide,
    pub total_battery_discharged_wh: Wide,
    pub total_pv_produced_wh: Wide,
    pub per_battery: Vec<PerBatteryReport>,
    pub per_pv: Vec<PerPvReport>,
    pub soc_stats: Option<SocStats>,
    pub main_meter_window_peaks: Vec<WindowPeakEntry>,
}

/// `entry` reports the peak of window `w`.
pub open spec fn is_peak(w: WindowPeak, now: Moment, entry: WindowPeakEntry) -> bool {
    entry.window_start.nanos == window_start(w.start_secs, now) && entry.peak_w == w.peak_w
}

/// `out` reports the journal and the totals.
pub open spec fn reports<P: Fn(Wide, Wide) -> Wide>(
    journal: ScenarioJournal,
    totals: ScenarioTotals,
    main_meter_id: Option<u64>,
    now: Moment,
    plus: P,
    out: ScenarioReport,
) -> bool {
    &&& out.scenario_elapsed.nanos == journal.spec_elapsed(now)
    &&& out.peak_main_meter_w == journal.peak_main_meter_active_w
    &&& out.main_meter_id == main_meter_id
    &&& totals_energy(
        totals.per_battery@,
        totals.per_pv@,
        plus,
        out.total_battery_charged_wh,
        out.total_battery_discharged_wh,
        out.total_pv_produced_wh,
    )
    &&& out.per_battery@ == totals.per_battery@
    &&& out.per_pv@ == totals.per_pv@
    &&& out.main_meter_window_peaks@.len() == totals.window_peaks@.len()
    &&& forall|i: int|
        0 <= i < totals.window_peaks@.len() ==> is_peak(
            totals.window_peaks@[i],
            now,
            #[trigger] out.main_meter_window_peaks@[i],
        )
}

/// The window peaks are reported oldest first.
pub proof fn window_peaks_ascend<P: Fn(Wide, Wide) -> Wide>(
    journal: ScenarioJournal,
    totals: ScenarioTotals,
    main_meter_id: Option<u64>,
    now: Moment,
    plus: P,
    out: ScenarioReport,
)
    requires
        totals.wf(),
        reports(journal, totals, main_meter_id, now, plus, out),
    ensures
        forall|i: int, j: int|
            0 <= i < j < out.main_meter_window_peaks@.len() ==> (
            #[trigger] out.main_meter_window_peaks@[i]).window_start.nanos < (
            #[trigger] out.main_meter_window_peaks@[j]).window_start.nanos,
{
    let list = out.main_meter_window_peaks@;
    assert forall|i: int, j: int| 0 <= i < j < list.len() implies (
    #[trigger] list[i]).window_start.nanos < (#[trigger] list[j]).window_start.nanos by {
        assert(is_peak(totals.window_peaks@[i], now, list[i]));
        assert(is_peak(totals.window_peaks@[j], now, list[j]));
        assert(totals.window_peaks@[i].start_secs < totals.window_peaks@[j].start_secs);
    }
}

fn peaks(windows: &Vec<WindowPeak>, now: Moment) -> (out: Vec<WindowPeakEntry>)
    ensures
        out@.len() == windows@.len(),
        forall|i: int| 0 <= i < out@.len() ==> is_peak(windows@[i], now, #[trigger] out@[i]),
{
    let mut out: Vec<WindowPeakEntry> = Vec::new();
    let mut i: usize = 0;
    while i < windows.len()
        invariant
            i <= windows.len(),
            out.len() == i,
            forall|k: int| 0 <= k < i ==> is_peak(windows@[k], now, #[trigger] out@[k]),
        decreases windows.len() - i,
    {
        let w = windows[i];
        out.push(
            WindowPeakEntry { window_start: start_of_window(w.start_secs, now), peak_w: w.peak_w },
        );
        i = i + 1;
    }
    out
}

/// A world.
#[derive(Debug)]
pub struct World {
    pub registry: Registry,
    pub grid_state: GridState,
    pub physics_tick_ms: u64,
    pub next_id: u64,
    pub timeouts: TimeoutTracker,
}

impl World {
    pub fn new() -> (out: Self)
        ensures
            out.registry.wf(),
            out.registry.is_blank(),
            out.registry.scenario.is_fresh(),
            out.registry.main_meter_id is None,
            out.registry.version == 0,
            out.grid_state == nominal_grid(),
            out.physics_tick_ms == 100,
            out.next_id == FIRST_AUTO_ID,
            forall|a: SetpointAxis| #[trigger]
                out.timeouts.deadlines(a) == Map::<u64, u128>::empty(),
    {
        World {
            registry: Registry::new(),
            grid_state: GridState::default(),
            physics_tick_ms: 100,
            next_id: FIRST_AUTO_ID,
            timeouts: TimeoutTracker::new(),
        }
    }

    /// The next free id.
    pub fn next_id(&mut self) -> (out: u64)
        requires
            old(self).next_id < u64::MAX,
        ensures
            out == old(self).next_id,
            *final(self) == (World { next_id: (out + 1) as u64, ..*old(self) }),
    {
        let id: u64 = self.next_id;
        self.next_id = id + 1;
        id
    }

    pub fn grid_state(&self) -> (out: GridState)
        ensures
            out == self.grid_state,
    {
        self.grid_state
    }

    pub fn set_grid_state(&mut self, state: GridState)
        ensures
            *final(self) == (World { grid_state: state, ..*old(self) }),
    {
        self.grid_state = state;
    }

    pub fn physics_tick(&self) -> (out: Span)
        ensures
            out.nanos == self.physics_tick_ms * 1_000_000,
    {
        Span::from_millis(self.physics_tick_ms)
    }

    pub fn set_physics_tick_ms(&mut self, ms: u64)
        ensures
            *final(self) == (World { physics_tick_ms: ms, ..*old(self) }),
    {
        self.physics_tick_ms = ms;
    }

    /// Arms the expiry of a setpoint; the latest one on an axis wins.
    pub fn add_timeout(&mut self, id: u64, axis: SetpointAxis, now: u128, lifetime: Span)
        requires
            now + lifetime.nanos <= u128::MAX,
        ensures
            *final(self) == (World { timeouts: final(self).timeouts, ..*old(self) }),
            forall|a: SetpointAxis| #[trigger]
                final(self).timeouts.deadlines(a) == (if a == axis {
                    old(self).timeouts.deadlines(a).insert(id, (now + lifetime.nanos) as u128)
                } else {
                    old(self).timeouts.deadlines(a)
                }),
    {
        self.timeouts.add(id, axis, now, lifetime);
    }

    /// Takes out the expiries that have passed and returns whose they were.
    pub fn drain_expired_timeouts(&mut self, now: u128) -> (out: Vec<(u64, SetpointAxis)>)
        ensures
            *final(self) == (World { timeouts: final(self).timeouts, ..*old(self) }),
            out@.no_duplicates(),
            forall|id: u64, a: SetpointAxis| #[trigger]
                out@.contains((id, a)) == has_passed(old(self).timeouts.deadlines(a), now, id),
            forall|a: SetpointAxis| #[trigger]
                final(self).timeouts.deadlines(a) == ahead(old(self).timeouts.deadlines(a), now),
    {
        self.timeouts.remove_expired(now)
    }

    /// Every edge, in the order they were added.
    pub fn connections(&self) -> (out: Vec<(u64, u64)>)
        ensures
            out@ == self.registry.connections@,
    {
        self.registry.all_connections()
    }

    /// The far end of every edge from `parent` and, behind them, each of
    /// `extra_hidden` that is not among them yet.
    pub fn children_of(&self, parent: u64, extra_hidden: &Vec<u64>) -> (out: Vec<u64>)
        ensures
            out@ == joined_with(children(self.registry.connections@, parent), extra_hidden@),
    {
        join_with(self.registry.children_of(parent), extra_hidden)
    }

    /// Changes the health of a component and nothing else.
    pub fn set_health(&mut self, id: u64, health: Health)
        ensures
            *final(self) == (World { registry: final(self).registry, ..*old(self) }),
            final(self).registry == (Registry {
                runtime: final(self).registry.runtime,
                ..old(self).registry
            }),
            final(self).registry.runtime@ == old(self).registry.runtime@.insert(
                id,
                (ComponentRuntime { health, ..old(self).registry.spec_runtime(id) }),
            ),
    {
        let r = self.registry.runtime_of(id);
        self.registry.set_runtime(
            id,
            ComponentRuntime { health, telemetry: r.telemetry, command: r.command },
        );
    }

    /// Forgets every component and starts the id range anew. The environment,
    /// the journal and the main meter stay.
    pub fn reset(&mut self)
        requires
            old(self).registry.wf(),
        ensures
            final(self).registry.wf(),
            final(self).registry.is_blank(),
            final(self).registry.scenario == old(self).registry.scenario,
            final(self).registry.main_meter_id == old(self).registry.main_meter_id,
            final(self).registry.version == old(self).registry.version,
            *final(self) == (World {
                registry: final(self).registry,
                next_id: FIRST_AUTO_ID,
                ..*old(self)
            }),
    {
        self.registry.wipe();
        self.next_id = FIRST_AUTO_ID;
    }

    /// Removes a component, its edges, its history and its knobs. False where
    /// there was none.
    pub fn remove_component(&mut self, id: u64) -> (out: bool)
        requires
            old(self).registry.wf(),
        ensures
            final(self).registry.wf(),
            *final(self) == (World { registry: final(self).registry, ..*old(self) }),
            out == component_of(old(self).registry.components@, id) is Some,
            final(self).registry == (Registry {
                components: final(self).registry.components,
                connections: final(self).registry.connections,
                histories: final(self).registry.histories,
                runtime: final(self).registry.runtime,
                ..old(self).registry
            }),
            final(self).registry.components@ == without_component(
                old(self).registry.components@,
                id,
            ),
            final(self).registry.connections@ == edges_where(
                old(self).registry.connections@,
                |e: (u64, u64)| e.0 != id && e.1 != id,
            ),
            final(self).registry.histories@ == old(self).registry.histories@.remove(id),
            final(self).registry.runtime@ == old(self).registry.runtime@.remove(id),
    {
        let was_present = self.registry.drop_component(id);
        self.registry.histories.remove(&id);
        self.registry.runtime.remove(&id);
        assert(self.registry.histories@ =~= old(self).registry.histories@.remove(id));
        assert(self.registry.runtime@ =~= old(self).registry.runtime@.remove(id));
        was_present
    }

    /// Logs a setpoint request and returns the event for live subscribers.
    pub fn log_setpoint(&mut self, id: u64, event: SetpointEvent) -> (out: SiteEvent)
        requires
            old(self).registry.wf(),
            event.ts.in_calendar(),
        ensures
            final(self).registry.wf(),
            *final(self) == (World { registry: final(self).registry, ..*old(self) }),
            logs_setpoint(old(self).registry, final(self).registry, id, event, out),
    {
        self.registry.log_setpoint(id, event)
    }

    /// One pass of the history sampler.
    pub fn record_history_snapshot(&mut self, now: Moment, snapshots: &Vec<Snapshot>) -> (out: Pass)
        requires
            old(self).registry.wf(),
            now.in_calendar(),
            snapshots.len() == old(self).registry.components.len(),
        ensures
            final(self).registry.wf(),
            *final(self) == (World { registry: final(self).registry, ..*old(self) }),
            samples(old(self).registry, final(self).registry, now, snapshots@, out),
    {
        self.registry.record_history_snapshot(now, snapshots)
    }

    /// Ends the scenario; the first stop wins.
    pub fn scenario_stop(&mut self, now: Moment)
        requires
            old(self).registry.wf(),
            now.in_calendar(),
        ensures
            final(self).registry.wf(),
            *final(self) == (World { registry: final(self).registry, ..*old(self) }),
            final(self).registry == (Registry {
                scenario: stopped(old(self).registry.scenario, now),
                ..old(self).registry
            }),
    {
        self.registry.scenario.stop(now);
    }
}

impl World {
    /// Counts a mutation; the event tells subscribers.
    pub fn bump_version(&mut self) -> (out: (u64, SiteEvent))
        requires
            old(self).registry.version < u64::MAX,
        ensures
            *final(self) == (World { registry: final(self).registry, ..*old(self) }),
            final(self).registry == (Registry { version: out.0, ..old(self).registry }),
            out.0 == old(self).registry.version + 1,
            out.1 == (SiteEvent::TopologyChanged { version: out.0 }),
    {
        self.registry.bump_version()
    }

    pub fn version(&self) -> (out: u64)
        ensures
            out == self.registry.version,
    {
        self.registry.version
    }

    pub fn main_meter_id(&self) -> (out: Option<u64>)
        ensures
            out == self.registry.main_meter_id,
    {
        self.registry.main_meter_id
    }

    /// Claims the main-meter flag. Refused while another meter holds it.
    pub fn set_main_meter(&mut self, id: u64) -> (out: Result<(), String>)
        ensures
            *final(self) == (World { registry: final(self).registry, ..*old(self) }),
            match old(self).registry.main_meter_id {
                Some(existing) if existing != id => {
                    &&& out matches Err(e) && e@ == "main meter already set to "@ + decimal_text(
                        existing as nat,
                    ) + "; can't claim "@ + decimal_text(id as nat)
                    &&& final(self).registry == old(self).registry
                },
                _ => {
                    &&& out is Ok
                    &&& final(self).registry == (Registry {
                        main_meter_id: Some(id),
                        ..old(self).registry
                    })
                },
            },
    {
        self.registry.set_main_meter(id)
    }

    /// Registers a component; its knobs start at normal unless they were set
    /// before.
    pub fn register(&mut self, c: Component)
        requires
            old(self).registry.wf(),
        ensures
            final(self).registry.wf(),
            *final(self) == (World { registry: final(self).registry, ..*old(self) }),
            final(self).registry == (Registry {
                components: final(self).registry.components,
                runtime: final(self).registry.runtime,
                ..old(self).registry
            }),
            final(self).registry.components@ == old(self).registry.components@.push(c),
            final(self).registry.runtime@ == (if old(self).registry.runtime@.contains_key(c.id) {
                old(self).registry.runtime@
            } else {
                old(self).registry.runtime@.insert(c.id, normal_runtime())
            }),
    {
        self.registry.register(c);
    }

    /// Adds an edge.
    pub fn connect(&mut self, parent: u64, child: u64)
        ensures
            *final(self) == (World { registry: final(self).registry, ..*old(self) }),
            final(self).registry == (Registry {
                connections: final(self).registry.connections,
                ..old(self).registry
            }),
            final(self).registry.connections@ == old(self).registry.connections@.push(
                (parent, child),
            ),
    {
        self.registry.connect(parent, child);
    }

    /// Drops every edge from `parent` to `child`; false where there was none.
    pub fn disconnect(&mut self, parent: u64, child: u64) -> (out: bool)
        ensures
            *final(self) == (World { registry: final(self).registry, ..*old(self) }),
            final(self).registry == (Registry {
                connections: final(self).registry.connections,
                ..old(self).registry
            }),
            final(self).registry.connections@ == edges_where(
                old(self).registry.connections@,
                |e: (u64, u64)| e != (parent, child),
            ),
            out == old(self).registry.connections@.contains((parent, child)),
    {
        self.registry.disconnect(parent, child)
    }

    /// The component registered last under `id`.
    pub fn get(&self, id: u64) -> (out: Option<&Component>)
        ensures
            match component_of(self.registry.components@, id) {
                Some(c) => out == Some(&c),
                None => out is None,
            },
    {
        self.registry.get(id)
    }

    /// The components in registration order, which is tick order.
    pub fn components(&self) -> (out: &Vec<Component>)
        ensures
            *out == self.registry.components,
    {
        &self.registry.components
    }

    /// How many edges end at `id`.
    pub fn parent_count(&self, id: u64) -> (out: usize)
        ensures
            out == parents(self.registry.connections@, id),
    {
        self.registry.parent_count(id)
    }

    /// The sum of the active-power envelopes of a component's direct children.
    /// `envelopes` holds the envelope of each component that reports one.
    /// None where no registered child reports one.
    pub fn aggregate_child_bounds<F: Fn(Scalar, Scalar) -> Scalar>(
        &self,
        parent: u64,
        envelopes: &BTreeMap<u64, VecBounds>,
        plus: F,
    ) -> (out: Option<VecBounds>)
        requires
            forall|a: Scalar, b: Scalar| call_requires(plus, (a, b)),
        ensures
            ({
                let found = reported(
                    children(self.registry.connections@, parent),
                    self.registry.components@,
                    envelopes@,
                );
                match out {
                    None => found.len() == 0,
                    Some(sum) => found.len() > 0 && is_sum(plus, found, sum@),
                }
            }),
    {
        self.registry.aggregate_child_bounds(parent, envelopes, plus)
    }

    /// Overrides the display name of a component.
    pub fn rename(&mut self, id: u64, name: String)
        ensures
            *final(self) == (World { registry: final(self).registry, ..*old(self) }),
            final(self).registry == (Registry {
                name_overrides: final(self).registry.name_overrides,
                ..old(self).registry
            }),
            final(self).registry.name_overrides@ == old(self).registry.name_overrides@.insert(
                id,
                name,
            ),
    {
        self.registry.rename(id, name);
    }

    /// The name to show: the override, else the component's own, else none.
    pub fn display_name(&self, id: u64) -> (out: Option<String>)
        ensures
            out is Some == self.registry.spec_display_name(id) is Some,
            out matches Some(n) ==> self.registry.spec_display_name(id) == Some(n@),
    {
        self.registry.display_name(id)
    }

    pub fn runtime_of(&self, id: u64) -> (out: ComponentRuntime)
        ensures
            out == self.registry.spec_runtime(id),
    {
        self.registry.runtime_of(id)
    }

    pub fn set_telemetry_mode(&mut self, id: u64, mode: TelemetryMode)
        ensures
            *final(self) == (World { registry: final(self).registry, ..*old(self) }),
            final(self).registry == (Registry {
                runtime: final(self).registry.runtime,
                ..old(self).registry
            }),
            final(self).registry.runtime@ == old(self).registry.runtime@.insert(
                id,
                (ComponentRuntime { telemetry: mode, ..old(self).registry.spec_runtime(id) }),
            ),
    {
        self.registry.set_telemetry_mode(id, mode);
    }

    pub fn set_command_mode(&mut self, id: u64, mode: CommandMode)
        ensures
            *final(self) == (World { registry: final(self).registry, ..*old(self) }),
            final(self).registry == (Registry {
                runtime: final(self).registry.runtime,
                ..old(self).registry
            }),
            final(self).registry.runtime@ == old(self).registry.runtime@.insert(
                id,
                (ComponentRuntime { command: mode, ..old(self).registry.spec_runtime(id) }),
            ),
    {
        self.registry.set_command_mode(id, mode);
    }

    /// The recent setpoint events of one component.
    pub fn setpoints_window(&self, id: u64, since: Moment) -> (out: Vec<SetpointEvent>)
        ensures
            self.registry.setpoint_logs@.contains_key(id) ==> is_event_window(
                self.registry.setpoints(id),
                since,
                out@,
            ),
            !self.registry.setpoint_logs@.contains_key(id) ==> out@.len() == 0,
    {
        self.registry.setpoints_window(id, since)
    }

    /// A window of one component's history of one metric; absent where none
    /// was recorded.
    pub fn history_window(&self, id: u64, metric: Metric, since: Moment) -> (out: Option<
        Vec<Sample>,
    >)
        ensures
            out is Some == self.registry.has_ring(id, metric),
            out matches Some(w) ==> is_sample_window(
                self.registry.ring(id, metric),
                since,
                w@,
            ),
    {
        self.registry.history_window(id, metric, since)
    }

    /// The metrics that a component has history of.
    pub fn history_metrics(&self, id: u64) -> (out: Vec<Metric>)
        ensures
            forall|m: Metric| #[trigger] out@.contains(m) == self.registry.has_ring(id, m),
            out@.no_duplicates(),
    {
        self.registry.history_metrics(id)
    }

    /// Begins a fresh scenario.
    pub fn scenario_start(&mut self, name: String, now: Moment)
        requires
            old(self).registry.wf(),
            now.in_calendar(),
        ensures
            final(self).registry.wf(),
            *final(self) == (World { registry: final(self).registry, ..*old(self) }),
            final(self).registry == (Registry {
                scenario: final(self).registry.scenario,
                ..old(self).registry
            }),
            final(self).registry.scenario.name == Some(name),
            final(self).registry.scenario.started_at == Some(now),
            final(self).registry.scenario.ended_at is None,
            final(self).registry.scenario.events@ == Seq::<ScenarioEvent>::empty(),
            final(self).registry.scenario.next_id == old(self).registry.scenario.next_id,
            final(self).registry.scenario.peak_main_meter_active_w == zero(),
    {
        self.registry.scenario.start(name, now);
    }

    /// Appends a journal event and returns its id.
    pub fn scenario_record(&mut self, kind: String, payload: String, now: Moment) -> (id: u64)
        requires
            old(self).registry.wf(),
            old(self).registry.scenario.next_id < u64::MAX,
        ensures
            final(self).registry.wf(),
            *final(self) == (World { registry: final(self).registry, ..*old(self) }),
            final(self).registry == (Registry {
                scenario: final(self).registry.scenario,
                ..old(self).registry
            }),
            id == old(self).registry.scenario.next_id,
            final(self).registry.scenario == (ScenarioJournal {
                next_id: (id + 1) as u64,
                events: final(self).registry.scenario.events,
                ..old(self).registry.scenario
            }),
            final(self).registry.scenario.events@ == ring_push(
                old(self).registry.scenario.events@,
                SCENARIO_EVENT_CAPACITY as nat,
                ScenarioEvent { id, ts: now, kind, payload },
            ),
    {
        self.registry.scenario.record(kind, payload, now)
    }

    /// How long the scenario has run.
    pub fn scenario_elapsed(&self, now: Moment) -> (out: Span)
        requires
            self.registry.wf(),
            now.in_calendar(),
        ensures
            out.nanos == self.registry.scenario.spec_elapsed(now),
    {
        self.registry.scenario.elapsed(now)
    }

    /// The scenario's lifecycle state.
    pub fn scenario_summary(&self, now: Moment) -> (out: ScenarioSummary)
        requires
            self.registry.wf(),
            now.in_calendar(),
        ensures
            is_summary(self.registry.scenario, now, out),
    {
        summarize(&self.registry.scenario, now)
    }

    /// The first `limit` events with an id of at least `since`.
    pub fn scenario_events_since(&self, since: u64, limit: usize) -> (out: Vec<ScenarioEvent>)
        ensures
            out@ == events_from(self.registry.scenario.events@, since, limit as nat),
    {
        self.registry.scenario.events_since(since, limit)
    }

    /// `out` reports the world's scenario and its batteries' current charge.
    pub open spec fn is_report<P: Fn(Wide, Wide) -> Wide, M: Fn(&Vec<Scalar>) -> Wide>(
        self,
        totals: ScenarioTotals,
        telemetry: Seq<Telemetry>,
        now: Moment,
        plus: P,
        mean: M,
        out: ScenarioReport,
    ) -> bool {
        &&& reports(self.registry.scenario, totals, self.registry.main_meter_id, now, plus, out)
        &&& socs_reported(
            battery_socs(self.registry.components@, telemetry),
            mean,
            out.soc_stats,
        )
    }

    /// The scenario's report. There is one telemetry per registered component,
    /// in registration order. `plus` adds, `mean` averages.
    pub fn scenario_report<P: Fn(Wide, Wide) -> Wide, M: Fn(&Vec<Scalar>) -> Wide>(
        &self,
        totals: &ScenarioTotals,
        telemetry: &Vec<Telemetry>,
        now: Moment,
        plus: P,
        mean: M,
    ) -> (out: ScenarioReport)
        requires
            self.registry.wf(),
            now.in_calendar(),
            telemetry.len() == self.registry.components.len(),
            forall|a: Wide, b: Wide| call_requires(plus, (a, b)),
            forall|v: &Vec<Scalar>| call_requires(mean, (v,)),
        ensures
            self.is_report(*totals, telemetry@, now, plus, mean, out),
    {
        let socs = self.registry.current_socs(telemetry);
        let energy = energy_report(&totals.per_battery, &totals.per_pv, &plus);
        ScenarioReport {
            scenario_elapsed: self.registry.scenario.elapsed(now),
            peak_main_meter_w: self.registry.scenario.peak_main_meter_active_w(),
            main_meter_id: self.registry.main_meter_id,
            total_battery_charged_wh: energy.charged_wh,
            total_battery_discharged_wh: energy.discharged_wh,
            total_pv_produced_wh: energy.produced_wh,
            per_battery: energy.per_battery,
            per_pv: energy.per_pv,
            soc_stats: compute_soc_stats(&socs, mean),
            main_meter_window_peaks: peaks(&totals.window_peaks, now),
        }
    }
}

impl Default for World {
    fn default() -> (out: Self)
        ensures
            out.registry.wf(),
            out.registry.is_blank(),
            out.registry.scenario.is_fresh(),
            out.registry.main_meter_id is None,
            out.registry.version == 0,
            out.grid_state == nominal_grid(),
            out.physics_tick_ms == 100,
            out.next_id == FIRST_AUTO_ID,
            forall|a: SetpointAxis| #[trigger]
                out.timeouts.deadlines(a) == Map::<u64, u128>::empty(),
    {
        World::new()
    }
}

/// The two reports say the same.
pub open spec fn same_report(a: ScenarioReport, b: ScenarioReport) -> bool {
    &&& a.scenario_elapsed == b.scenario_elapsed
    &&& a.peak_main_meter_w == b.peak_main_meter_w
    &&& a.main_meter_id == b.main_meter_id
    &&& a.total_battery_charged_wh == b.total_battery_charged_wh
    &&& a.total_battery_discharged_wh == b.total_battery_discharged_wh
    &&& a.total_pv_produced_wh == b.total_pv_produced_wh
    &&& a.per_battery@ == b.per_battery@
    &&& a.per_pv@ == b.per_pv@
    &&& a.soc_stats == b.soc_stats
    &&& a.main_meter_window_peaks@ == b.main_meter_window_peaks@
}

/// What a world reports holds together: the totals sum the reported lists, the
/// statistics are absent exactly where no battery publishes its charge, the
/// window peaks run forward, the main meter is the world's, and asking again
/// gives the same report.
pub proof fn report_holds_together<P: Fn(Wide, Wide) -> Wide, M: Fn(&Vec<Scalar>) -> Wide>(
    world: World,
    totals: ScenarioTotals,
    telemetry: Seq<Telemetry>,
    now: Moment,
    plus: P,
    mean: M,
    out: ScenarioReport,
    again: ScenarioReport,
)
    requires
        totals.wf(),
        telemetry.len() == world.registry.components@.len(),
        is_single_valued(plus),
        is_single_mean(mean),
        world.is_report(totals, telemetry, now, plus, mean, out),
        world.is_report(totals, telemetry, now, plus, mean, again),
    ensures
        totals_energy(
            out.per_battery@,
            out.per_pv@,
            plus,
            out.total_battery_charged_wh,
            out.total_battery_discharged_wh,
            out.total_pv_produced_wh,
        ),
        out.soc_stats is None <==> (forall|i: int|
            0 <= i < telemetry.len() ==> !publishes_soc(
                #[trigger] world.registry.components@[i],
                telemetry[i],
            )),
        forall|i: int, j: int|
            0 <= i < j < out.main_meter_window_peaks@.len() ==> (
            #[trigger] out.main_meter_window_peaks@[i]).window_start.nanos < (
            #[trigger] out.main_meter_window_peaks@[j]).window_start.nanos,
        out.main_meter_id == world.registry.main_meter_id,
        same_report(out, again),
{
    let socs = battery_socs(world.registry.components@, telemetry);
    socs_need_a_battery(world.registry.components@, telemetry);
    window_peaks_ascend(
        world.registry.scenario,
        totals,
        world.registry.main_meter_id,
        now,
        plus,
        out,
    );
    energy_agrees(
        totals.per_battery@,
        totals.per_pv@,
        plus,
        (
            out.total_battery_charged_wh,
            out.total_battery_discharged_wh,
            out.total_pv_produced_wh,
        ),
        (
            again.total_battery_charged_wh,
            again.total_battery_discharged_wh,
            again.total_pv_produced_wh,
        ),
    );
    socs_agree(socs, mean, out.soc_stats, again.soc_stats);
    let x = out.main_meter_window_peaks@;
    let y = again.main_meter_window_peaks@;
    assert forall|i: int| 0 <= i < x.len() implies x[i] == y[i] by {
        assert(is_peak(totals.window_peaks@[i], now, x[i]));
        assert(is_peak(totals.window_peaks@[i], now, y[i]));
    }
    assert(x =~= y);
}

/// Joining keeps what was there at its place and holds what either list
/// holds.
pub proof fn joining_keeps_both(ids: Seq<u64>, extra: Seq<u64>)
    ensures
        ids.len() <= joined_with(ids, extra).len(),
        joined_with(ids, extra).take(ids.len() as int) == ids,
        forall|id: u64| #[trigger]
            joined_with(ids, extra).contains(id) <==> ids.contains(id) || extra.contains(id),
    decreases extra.len(),
{
    let out = joined_with(ids, extra);
    if extra.len() == 0 {
        assert(out.take(ids.len() as int) =~= ids);
    } else {
        let init = extra.drop_last();
        let last = extra.last();
        let before = joined_with(ids, init);
        joining_keeps_both(ids, init);
        assert(out.take(ids.len() as int) =~= before.take(ids.len() as int));
        assert forall|id: u64| #[trigger] out.contains(id) <==> ids.contains(id)
            || extra.contains(id) by {
            assert(before.contains(id) <==> ids.contains(id) || init.contains(id));
            if extra.contains(id) {
                let k = choose|k: int| 0 <= k < extra.len() && extra[k] == id;
                if k < init.len() {
                    assert(init[k] == id);
                }
            }
            if init.contains(id) {
                let k = choose|k: int| 0 <= k < init.len() && init[k] == id;
                assert(extra[k] == id);
            }
            assert(extra[extra.len() - 1] == last);
            if !before.contains(last) {
                assert(out[before.len() as int] == last);
                if before.contains(id) {
                    let k = choose|k: int| 0 <= k < before.len() && before[k] == id;
                    assert(out[k] == id);
                }
                if out.contains(id) && id != last {
                    let k = choose|k: int| 0 <= k < out.len() && out[k] == id;
                    assert(before[k] == id);
                }
            }
        }
    }
}

/// With an addition that is exact, the totals of a report are the sums of the
/// energies of its devices, and each window is dated by the second it starts at
/// and shows its own peak.
pub proof fn report_adds_up<P: Fn(Wide, Wide) -> Wide>(
    journal: ScenarioJournal,
    totals: ScenarioTotals,
    main_meter_id: Option<u64>,
    now: Moment,
    plus: P,
    out: ScenarioReport,
    value: spec_fn(Wide) -> int,
)
    requires
        totals.wf(),
        reports(journal, totals, main_meter_id, now, plus, out),
        value(wide_zero()) == 0,
        forall|a: Wide, b: Wide, r: Wide| #[trigger]
            call_ensures(plus, (a, b), r) ==> value(r) == value(a) + value(b),
    ensures
        value(out.total_battery_charged_wh) == sum_of(
            totals.per_battery@,
            |b: PerBatteryReport| value(b.charge_wh),
        ),
        value(out.total_battery_discharged_wh) == sum_of(
            totals.per_battery@,
            |b: PerBatteryReport| value(b.discharge_wh),
        ),
        value(out.total_pv_produced_wh) == sum_of(
            totals.per_pv@,
            |p: PerPvReport| value(p.produced_wh),
        ),
        out.main_meter_window_peaks@.len() == totals.window_peaks@.len(),
        forall|i: int|
            0 <= i < totals.window_peaks@.len() ==> (
            #[trigger] out.main_meter_window_peaks@[i]).peak_w == totals.window_peaks@[i].peak_w
                && out.main_meter_window_peaks@[i].window_start.nanos
                == totals.window_peaks@[i].start_secs * 1_000_000_000,
{
    energy_adds_up(
        totals.per_battery@,
        totals.per_pv@,
        plus,
        out.total_battery_charged_wh,
        out.total_battery_discharged_wh,
        out.total_pv_produced_wh,
        value,
    );
    assert forall|i: int| 0 <= i < totals.window_peaks@.len() implies (
    #[trigger] out.main_meter_window_peaks@[i]).peak_w == totals.window_peaks@[i].peak_w
        && out.main_meter_window_peaks@[i].window_start.nanos == totals.window_peaks@[i].start_secs
        * 1_000_000_000 by {
        assert(is_peak(totals.window_peaks@[i], now, out.main_meter_window_peaks@[i]));
        assert(FIRST_SECOND <= totals.window_peaks@[i].start_secs <= LAST_SECOND);
    }
}

} // verus!
