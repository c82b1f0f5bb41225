//! Components, the parent-to-child graph between them, and what is kept per
//! component.

use crate::bounds::{is_sum, unions, Bounds, VecBounds};
use crate::component::{Category, Telemetry};
use crate::events::SiteEvent;
use crate::history::{is_sample_window, ring_push, ComponentHistory, Metric, Sample};
use crate::runtime::{normal_runtime, CommandMode, ComponentRuntime, Health, TelemetryMode};
use crate::scalar::Scalar;
use crate::scenario::ScenarioJournal;
use crate::setpoints::{is_event_window, SetpointEvent, SetpointLog, SetpointOutcome};
use crate::text::{decimal_text, push_decimal, same_text};
use crate::time::Moment;
use std::collections::BTreeMap;
use vstd::prelude::*;

verus! {

broadcast use vstd::std_specs::btree::group_btree_axioms;

/// Cap on the samples kept per component and metric.
pub const HISTORY_CAPACITY: usize = 600;

/// Cap on the setpoint events kept per component.
pub const SETPOINT_LOG_CAPACITY: usize = 1000;

/// What the registry knows of a component.
#[derive(Debug)]
pub struct Component {
    pub id: u64,
    pub category: Category,
    pub name: String,
    pub subtype: Option<String>,
    /// Aggregated by its parents but left out of the visible graph.
    pub hidden: bool,
}

impl Clone for Component {
    fn clone(&self) -> (out: Self)
        ensures
            out == *self,
    {
        Component {
            id: self.id,
            category: self.category,
            name: self.name.clone(),
            subtype: match &self.subtype {
                Some(s) => Some(s.clone()),
                None => None,
            },
            hidden: self.hidden,
        }
    }
}

impl Component {
    /// The subtype is `name`.
    pub open spec fn is_subtype(self, name: Seq<char>) -> bool {
        self.subtype matches Some(s) && s@ == name
    }

    pub fn has_subtype(&self, name: &str) -> (out: bool)
        ensures
            out == self.is_subtype(name@),
    {
        match &self.subtype {
            Some(s) => same_text(s.as_str(), name),
            None => false,
        }
    }
}

/// The component registered last under `id`.
pub open spec fn component_of(components: Seq<Component>, id: u64) -> Option<Component>
    decreases components.len(),
{
    if components.len() == 0 {
        None
    } else if components.last().id == id {
        Some(components.last())
    } else {
        component_of(components.drop_last(), id)
    }
}

/// `id` is registered as hidden.
pub open spec fn is_hidden(components: Seq<Component>, id: u64) -> bool {
    component_of(components, id) matches Some(c) && c.hidden
}

/// Neither end of the edge is hidden.
pub open spec fn is_visible(components: Seq<Component>, edge: (u64, u64)) -> bool {
    !is_hidden(components, edge.0) && !is_hidden(components, edge.1)
}

/// The components, the graph, and what is kept per component.
#[derive(Debug)]
pub struct Registry {
    /// In registration order.
    pub components: Vec<Component>,
    /// Parent-to-child edges in the order they were added.
    pub connections: Vec<(u64, u64)>,
    pub runtime: BTreeMap<u64, ComponentRuntime>,
    pub name_overrides: BTreeMap<u64, String>,
    pub histories: BTreeMap<u64, ComponentHistory>,
    pub setpoint_logs: BTreeMap<u64, SetpointLog>,
    pub scenario: ScenarioJournal,
    pub main_meter_id: Option<u64>,
    pub version: u64,
}

/// The edges from `parent`, as their far ends.
pub open spec fn children(connections: Seq<(u64, u64)>, parent: u64) -> Seq<u64>
    decreases connections.len(),
{
    if connections.len() == 0 {
        Seq::empty()
    } else {
        let rest = children(connections.drop_last(), parent);
        if connections.last().0 == parent {
            rest.push(connections.last().1)
        } else {
            rest
        }
    }
}

/// How many edges end at `id`.
pub open spec fn parents(connections: Seq<(u64, u64)>, id: u64) -> nat
    decreases connections.len(),
{
    if connections.len() == 0 {
        0
    } else {
        parents(connections.drop_last(), id) + (if connections.last().1 == id {
            1nat
        } else {
            0
        })
    }
}

/// The edges that `keep` accepts, in order.
pub open spec fn edges_where(
    connections: Seq<(u64, u64)>,
    keep: spec_fn((u64, u64)) -> bool,
) -> Seq<(u64, u64)>
    decreases connections.len(),
{
    if connections.len() == 0 {
        Seq::empty()
    } else {
        let rest = edges_where(connections.drop_last(), keep);
        if keep(connections.last()) {
            rest.push(connections.last())
        } else {
            rest
        }
    }
}

/// The components other than `id`, in order.
pub open spec fn without_component(components: Seq<Component>, id: u64) -> Seq<Component>
    decreases components.len(),
{
    if components.len() == 0 {
        Seq::empty()
    } else {
        let rest = without_component(components.drop_last(), id);
        if components.last().id == id {
            rest
        } else {
            rest.push(components.last())
        }
    }
}

/// `after` is `before` with `event` behind the newest entry of the log of
/// `id`, and `out` tells live subscribers of it.
pub open spec fn logs_setpoint(
    before: Registry,
    after: Registry,
    id: u64,
    event: SetpointEvent,
    out: SiteEvent,
) -> bool {
    &&& after == (Registry { setpoint_logs: after.setpoint_logs, ..before })
    &&& after.setpoints(id) == ring_push(
        before.setpoints(id),
        SETPOINT_LOG_CAPACITY as nat,
        event,
    )
    &&& forall|other: u64|
        other != id ==> #[trigger] after.setpoints(other) == before.setpoints(other)
    &&& out == SiteEvent::Setpoint {
        id,
        ts_ms: (event.ts.nanos as int / 1_000_000) as i64,
        setpoint_kind: event.kind,
        value: event.value,
        accepted: event.outcome is Accepted,
        reason: match event.outcome {
            SetpointOutcome::Accepted { .. } => None,
            SetpointOutcome::Rejected { reason } => Some(reason),
        },
    }
}

/// The state of charge of every battery that reports one, in registration
/// order.
pub open spec fn battery_socs(components: Seq<Component>, telemetry: Seq<Telemetry>) -> Seq<Scalar>
    decreases components.len(),
{
    if components.len() == 0 || telemetry.len() == 0 {
        Seq::empty()
    } else {
        let rest = battery_socs(components.drop_last(), telemetry.drop_last());
        match telemetry.last().soc_pct {
            Some(s) if components.last().category == Category::Battery => rest.push(s),
            _ => rest,
        }
    }
}

/// A component is a battery that publishes its state of charge.
pub open spec fn publishes_soc(c: Component, t: Telemetry) -> bool {
    c.category == Category::Battery && t.soc_pct is Some
}

/// There are charges to report exactly where some battery publishes its own.
pub proof fn socs_need_a_battery(components: Seq<Component>, telemetry: Seq<Telemetry>)
    requires
        components.len() == telemetry.len(),
    ensures
        (battery_socs(components, telemetry).len() == 0) == (forall|i: int|
            0 <= i < components.len() ==> !publishes_soc(#[trigger] components[i], telemetry[i])),
    decreases components.len(),
{
    if components.len() > 0 {
        let init = components.drop_last();
        let before = telemetry.drop_last();
        let last = components.len() - 1;
        socs_need_a_battery(init, before);
        if (forall|i: int|
            0 <= i < init.len() ==> !publishes_soc(#[trigger] init[i], before[i]))
            && !publishes_soc(components[last], telemetry[last]) {
            assert forall|i: int| 0 <= i < components.len() implies !publishes_soc(
                #[trigger] components[i],
                telemetry[i],
            ) by {
                if i < last {
                    assert(init[i] == components[i]);
                }
            }
        }
        if (forall|i: int|
            0 <= i < components.len() ==> !publishes_soc(#[trigger] components[i], telemetry[i])) {
            assert(!publishes_soc(components[last], telemetry[last]));
            assert forall|i: int| 0 <= i < init.len() implies !publishes_soc(
                #[trigger] init[i],
                before[i],
            ) by {
                assert(init[i] == components[i]);
            }
        }
    }
}

/// The envelopes that registered components among `ids` report, in order.
pub open spec fn reported(
    ids: Seq<u64>,
    components: Seq<Component>,
    envelopes: Map<u64, VecBounds>,
) -> Seq<Seq<Bounds>>
    decreases ids.len(),
{
    if ids.len() == 0 {
        Seq::empty()
    } else {
        let rest = reported(ids.drop_last(), components, envelopes);
        if component_of(components, ids.last()) is Some && envelopes.contains_key(ids.last()) {
            rest.push(envelopes[ids.last()]@)
        } else {
            rest
        }
    }
}

impl Registry {
    /// Histories and logs have their fixed capacities, and the journal is
    /// well formed.
    pub open spec fn wf(self) -> bool {
        &&& forall|id: u64| #[trigger]
            self.histories@.contains_key(id) ==> self.histories@[id].wf()
                && self.histories@[id].capacity == HISTORY_CAPACITY
        &&& forall|id: u64| #[trigger]
            self.setpoint_logs@.contains_key(id) ==> self.setpoint_logs@[id].capacity
                == SETPOINT_LOG_CAPACITY
        &&& self.scenario.wf()
    }

    /// The knobs of a component; all normal where none were set.
    pub open spec fn spec_runtime(self, id: u64) -> ComponentRuntime {
        if self.runtime@.contains_key(id) {
            self.runtime@[id]
        } else {
            normal_runtime()
        }
    }

    /// The samples of one metric of one component.
    pub open spec fn ring(self, id: u64, metric: Metric) -> Seq<Sample> {
        if self.histories@.contains_key(id) {
            self.histories@[id].ring(metric)
        } else {
            Seq::empty()
        }
    }

    /// `metric` of component `id` has been recorded.
    pub open spec fn has_ring(self, id: u64, metric: Metric) -> bool {
        self.histories@.contains_key(id) && self.histories@[id].has(metric)
    }

    /// The setpoint events of one component.
    pub open spec fn setpoints(self, id: u64) -> Seq<SetpointEvent> {
        if self.setpoint_logs@.contains_key(id) {
            self.setpoint_logs@[id]@
        } else {
            Seq::empty()
        }
    }

    /// Nothing is registered, kept or journaled.
    pub open spec fn is_blank(self) -> bool {
        &&& self.components@.len() == 0
        &&& self.connections@.len() == 0
        &&& self.runtime@ == Map::<u64, ComponentRuntime>::empty()
        &&& self.name_overrides@ == Map::<u64, String>::empty()
        &&& self.histories@ == Map::<u64, ComponentHistory>::empty()
        &&& self.setpoint_logs@ == Map::<u64, SetpointLog>::empty()
    }

    pub fn new() -> (out: Self)
        ensures
            out.wf(),
            out.is_blank(),
            out.scenario.is_fresh(),
            out.main_meter_id is None,
            out.version == 0,
    {
        Registry {
            components: Vec::new(),
            connections: Vec::new(),
            runtime: BTreeMap::new(),
            name_overrides: BTreeMap::new(),
            histories: BTreeMap::new(),
            setpoint_logs: BTreeMap::new(),
            scenario: ScenarioJournal::default(),
            main_meter_id: None,
            version: 0,
        }
    }

    /// Counts a mutation; the event tells subscribers.
    pub fn bump_version(&mut self) -> (out: (u64, SiteEvent))
        requires
            old(self).version < u64::MAX,
        ensures
            *final(self) == (Registry { version: (old(self).version + 1) as u64, ..*old(self) }),
            out.0 == old(self).version + 1,
            out.1 == (SiteEvent::TopologyChanged { version: out.0 }),
    {
        let version: u64 = self.version + 1;
        self.version = version;
        (version, SiteEvent::TopologyChanged { version })
    }

    /// Claims the main-meter flag. Refused while another meter holds it.
    pub fn set_main_meter(&mut self, id: u64) -> (out: Result<(), String>)
        ensures
            match old(self).main_meter_id {
                Some(existing) if existing != id => {
                    &&& out matches Err(e) && e@ == "main meter already set to "@ + decimal_text(
                        existing as nat,
                    ) + "; can't claim "@ + decimal_text(id as nat)
                    &&& *final(self) == *old(self)
                },
                _ => {
                    &&& out is Ok
                    &&& *final(self) == (Registry { main_meter_id: Some(id), ..*old(self) })
                },
            },
    {
        if let Some(existing) = self.main_meter_id {
            if existing != id {
                let mut message = String::from_str("main meter already set to ");
                push_decimal(&mut message, existing);
                message.append("; can't claim ");
                push_decimal(&mut message, id);
                return Err(message);
            }
        }
        self.main_meter_id = Some(id);
        Ok(())
    }

    /// Registers a component; its knobs start at normal unless they were set
    /// before.
    pub fn register(&mut self, c: Component)
        requires
            old(self).wf(),
        ensures
            final(self).wf(),
            *final(self) == (Registry {
                components: final(self).components,
                runtime: final(self).runtime,
                ..*old(self)
            }),
            final(self).components@ == old(self).components@.push(c),
            final(self).runtime@ == (if old(self).runtime@.contains_key(c.id) {
                old(self).runtime@
            } else {
                old(self).runtime@.insert(c.id, normal_runtime())
            }),
    {
        let id: u64 = c.id;
        self.components.push(c);
        if !self.runtime.contains_key(&id) {
            self.runtime.insert(id, ComponentRuntime::default());
        }
    }

    /// Adds an edge.
    pub fn connect(&mut self, parent: u64, child: u64)
        ensures
            *final(self) == (Registry { connections: final(self).connections, ..*old(self) }),
            final(self).connections@ == old(self).connections@.push((parent, child)),
    {
        self.connections.push((parent, child));
    }

    /// The component registered last under `id`.
    pub fn get(&self, id: u64) -> (out: Option<&Component>)
        ensures
            match component_of(self.components@, id) {
                Some(c) => out == Some(&c),
                None => out is None,
            },
    {
        let mut n: usize = self.components.len();
        assert(self.components@.subrange(0, n as int) =~= self.components@);
        while n > 0
            invariant
                n <= self.components.len(),
                component_of(self.components@, id) == component_of(
                    self.components@.subrange(0, n as int),
                    id,
                ),
            decreases n,
        {
            let ghost seen = self.components@.subrange(0, n as int);
            assert(seen.drop_last() =~= self.components@.subrange(0, n - 1));
            if self.components[n - 1].id == id {
                return Some(&self.components[n - 1]);
            }
            n = n - 1;
        }
        None
    }

    fn hidden(&self, id: u64) -> (out: bool)
        ensures
            out == is_hidden(self.components@, id),
    {
        match self.get(id) {
            Some(c) => c.hidden,
            None => false,
        }
    }

    /// The edges between visible components.
    pub fn visible_connections(&self) -> (out: Vec<(u64, u64)>)
        ensures
            out@ == edges_where(
                self.connections@,
                |e: (u64, u64)| is_visible(self.components@, e),
            ),
    {
        let ghost keep = |e: (u64, u64)| is_visible(self.components@, e);
        let mut out: Vec<(u64, u64)> = Vec::new();
        let mut i: usize = 0;
        assert(self.connections@.subrange(0, 0) =~= Seq::<(u64, u64)>::empty());
        while i < self.connections.len()
            invariant
                i <= self.connections.len(),
                keep == (|e: (u64, u64)| is_visible(self.components@, e)),
                out@ == edges_where(self.connections@.subrange(0, i as int), keep),
            decreases self.connections.len() - i,
        {
            assert(self.connections@.subrange(0, i + 1).drop_last() =~= self.connections@.subrange(
                0,
                i as int,
            ));
            let e = self.connections[i];
            if !self.hidden(e.0) && !self.hidden(e.1) {
                assert(keep(e));
                out.push(e);
            } else {
                assert(!keep(e));
            }
            i = i + 1;
        }
        assert(self.connections@.subrange(0, self.connections@.len() as int)
            =~= self.connections@);
        out
    }

    /// The edges with a hidden end.
    pub fn hidden_connections(&self) -> (out: Vec<(u64, u64)>)
        ensures
            out@ == edges_where(
                self.connections@,
                |e: (u64, u64)| !is_visible(self.components@, e),
            ),
    {
        let ghost keep = |e: (u64, u64)| !is_visible(self.components@, e);
        let mut out: Vec<(u64, u64)> = Vec::new();
        let mut i: usize = 0;
        assert(self.connections@.subrange(0, 0) =~= Seq::<(u64, u64)>::empty());
        while i < self.connections.len()
            invariant
                i <= self.connections.len(),
                keep == (|e: (u64, u64)| !is_visible(self.components@, e)),
                out@ == edges_where(self.connections@.subrange(0, i as int), keep),
            decreases self.connections.len() - i,
        {
            assert(self.connections@.subrange(0, i + 1).drop_last() =~= self.connections@.subrange(
                0,
                i as int,
            ));
            let e = self.connections[i];
            if self.hidden(e.0) || self.hidden(e.1) {
                assert(keep(e));
                out.push(e);
            } else {
                assert(!keep(e));
            }
            i = i + 1;
        }
        assert(self.connections@.subrange(0, self.connections@.len() as int)
            =~= self.connections@);
        out
    }

    /// Every edge, in the order they were added.
    pub fn all_connections(&self) -> (out: Vec<(u64, u64)>)
        ensures
            out@ == self.connections@,
    {
        let mut out: Vec<(u64, u64)> = Vec::new();
        let mut i: usize = 0;
        while i < self.connections.len()
            invariant
                i <= self.connections.len(),
                out@ == self.connections@.subrange(0, i as int),
            decreases self.connections.len() - i,
        {
            out.push(self.connections[i]);
            i = i + 1;
            assert(out@ =~= self.connections@.subrange(0, i as int));
        }
        assert(out@ =~= self.connections@);
        out
    }

    /// The far end of every edge from `parent`, hidden or not.
    pub fn children_of(&self, parent: u64) -> (out: Vec<u64>)
        ensures
            out@ == children(self.connections@, parent),
    {
        let mut out: Vec<u64> = Vec::new();
        let mut i: usize = 0;
        assert(self.connections@.subrange(0, 0) =~= Seq::<(u64, u64)>::empty());
        while i < self.connections.len()
            invariant
                i <= self.connections.len(),
                out@ == children(self.connections@.subrange(0, i as int), parent),
            decreases self.connections.len() - i,
        {
            assert(self.connections@.subrange(0, i + 1).drop_last() =~= self.connections@.subrange(
                0,
                i as int,
            ));
            if self.connections[i].0 == parent {
                out.push(self.connections[i].1);
            }
            i = i + 1;
        }
        assert(self.connections@.subrange(0, self.connections@.len() as int)
            =~= self.connections@);
        out
    }

    /// How many edges end at `id`.
    pub fn parent_count(&self, id: u64) -> (out: usize)
        ensures
            out == parents(self.connections@, id),
    {
        let mut count: usize = 0;
        let mut i: usize = 0;
        assert(self.connections@.subrange(0, 0) =~= Seq::<(u64, u64)>::empty());
        while i < self.connections.len()
            invariant
                i <= self.connections.len(),
                count <= i,
                count == parents(self.connections@.subrange(0, i as int), id),
            decreases self.connections.len() - i,
        {
            assert(self.connections@.subrange(0, i + 1).drop_last() =~= self.connections@.subrange(
                0,
                i as int,
            ));
            if self.connections[i].1 == id {
                count = count + 1;
            }
            i = i + 1;
        }
        assert(self.connections@.subrange(0, self.connections@.len() as int)
            =~= self.connections@);
        count
    }

    /// Drops every edge from `parent` to `child`; false where there was none.
    pub fn disconnect(&mut self, parent: u64, child: u64) -> (out: bool)
        ensures
            *final(self) == (Registry { connections: final(self).connections, ..*old(self) }),
            final(self).connections@ == edges_where(
                old(self).connections@,
                |e: (u64, u64)| e != (parent, child),
            ),
            out == old(self).connections@.contains((parent, child)),
    {
        let ghost keep = |e: (u64, u64)| e != (parent, child);
        let ghost all = self.connections@;
        let mut kept: Vec<(u64, u64)> = Vec::new();
        let mut found = false;
        let mut i: usize = 0;
        assert(all.subrange(0, 0) =~= Seq::<(u64, u64)>::empty());
        while i < self.connections.len()
            invariant
                i <= self.connections.len(),
                self.connections@ == all,
                keep == (|e: (u64, u64)| e != (parent, child)),
                kept@ == edges_where(all.subrange(0, i as int), keep),
                found == exists|k: int| 0 <= k < i && all[k] == (parent, child),
            decreases self.connections.len() - i,
        {
            assert(all.subrange(0, i + 1).drop_last() =~= all.subrange(0, i as int));
            let e = self.connections[i];
            if e.0 == parent && e.1 == child {
                found = true;
                assert(all[i as int] == (parent, child));
                assert(!keep(e));
            } else {
                assert(keep(e));
                kept.push(e);
            }
            i = i + 1;
        }
        assert(all.subrange(0, all.len() as int) =~= all);
        self.connections = kept;
        found
    }

    /// Overrides the display name of a component.
    pub fn rename(&mut self, id: u64, name: String)
        ensures
            *final(self) == (Registry { name_overrides: final(self).name_overrides, ..*old(self) }),
            final(self).name_overrides@ == old(self).name_overrides@.insert(id, name),
    {
        self.name_overrides.insert(id, name);
    }

    /// The name to show: the override, else the component's own, else none.
    pub open spec fn spec_display_name(self, id: u64) -> Option<Seq<char>> {
        if self.name_overrides@.contains_key(id) {
            Some(self.name_overrides@[id]@)
        } else {
            match component_of(self.components@, id) {
                Some(c) => Some(c.name@),
                None => None,
            }
        }
    }

    pub fn display_name(&self, id: u64) -> (out: Option<String>)
        ensures
            out is Some == self.spec_display_name(id) is Some,
            out matches Some(n) ==> self.spec_display_name(id) == Some(n@),
    {
        if let Some(n) = self.name_overrides.get(&id) {
            return Some(n.clone());
        }
        match self.get(id) {
            Some(c) => Some(c.name.clone()),
            None => None,
        }
    }

    pub fn runtime_of(&self, id: u64) -> (out: ComponentRuntime)
        ensures
            out == self.spec_runtime(id),
    {
        match self.runtime.get(&id) {
            Some(r) => *r,
            None => ComponentRuntime::default(),
        }
    }

    /// Replaces the knobs of a component.
    pub fn set_runtime(&mut self, id: u64, runtime: ComponentRuntime)
        ensures
            *final(self) == (Registry { runtime: final(self).runtime, ..*old(self) }),
            final(self).runtime@ == old(self).runtime@.insert(id, runtime),
    {
        self.runtime.insert(id, runtime);
    }

    pub fn set_telemetry_mode(&mut self, id: u64, mode: TelemetryMode)
        ensures
            *final(self) == (Registry { runtime: final(self).runtime, ..*old(self) }),
            final(self).runtime@ == old(self).runtime@.insert(
                id,
                (ComponentRuntime { telemetry: mode, ..old(self).spec_runtime(id) }),
            ),
    {
        let r = self.runtime_of(id);
        self.runtime.insert(
            id,
            ComponentRuntime { health: r.health, telemetry: mode, command: r.command },
        );
    }

    pub fn set_command_mode(&mut self, id: u64, mode: CommandMode)
        ensures
            *final(self) == (Registry { runtime: final(self).runtime, ..*old(self) }),
            final(self).runtime@ == old(self).runtime@.insert(
                id,
                (ComponentRuntime { command: mode, ..old(self).spec_runtime(id) }),
            ),
    {
        let r = self.runtime_of(id);
        self.runtime.insert(
            id,
            ComponentRuntime { health: r.health, telemetry: r.telemetry, command: mode },
        );
    }

    /// Forgets every component and what was kept for it. The journal, the main
    /// meter and the version stay.
    pub fn wipe(&mut self)
        requires
            old(self).wf(),
        ensures
            final(self).wf(),
            final(self).is_blank(),
            final(self).scenario == old(self).scenario,
            final(self).main_meter_id == old(self).main_meter_id,
            final(self).version == old(self).version,
    {
        self.components = Vec::new();
        self.connections = Vec::new();
        self.runtime = BTreeMap::new();
        self.name_overrides = BTreeMap::new();
        self.histories = BTreeMap::new();
        self.setpoint_logs = BTreeMap::new();
    }

    /// Removes the registered components `id` and every edge that touches it;
    /// false where there was none.
    pub fn drop_component(&mut self, id: u64) -> (out: bool)
        ensures
            *final(self) == (Registry {
                components: final(self).components,
                connections: final(self).connections,
                ..*old(self)
            }),
            final(self).components@ == without_component(old(self).components@, id),
            final(self).connections@ == edges_where(
                old(self).connections@,
                |e: (u64, u64)| e.0 != id && e.1 != id,
            ),
            out == component_of(old(self).components@, id) is Some,
    {
        let was_present = self.get(id).is_some();
        let ghost all = self.components@;
        let mut kept: Vec<Component> = Vec::new();
        let mut i: usize = 0;
        assert(all.subrange(0, 0) =~= Seq::<Component>::empty());
        while i < self.components.len()
            invariant
                i <= self.components.len(),
                self.components@ == all,
                kept@ == without_component(all.subrange(0, i as int), id),
            decreases self.components.len() - i,
        {
            assert(all.subrange(0, i + 1).drop_last() =~= all.subrange(0, i as int));
            if self.components[i].id != id {
                kept.push(self.components[i].clone());
            }
            i = i + 1;
        }
        assert(all.subrange(0, all.len() as int) =~= all);
        let ghost keep = |e: (u64, u64)| e.0 != id && e.1 != id;
        let ghost edges = self.connections@;
        let mut left: Vec<(u64, u64)> = Vec::new();
        let mut j: usize = 0;
        assert(edges.subrange(0, 0) =~= Seq::<(u64, u64)>::empty());
        while j < self.connections.len()
            invariant
                j <= self.connections.len(),
                self.connections@ == edges,
                keep == (|e: (u64, u64)| e.0 != id && e.1 != id),
                left@ == edges_where(edges.subrange(0, j as int), keep),
            decreases self.connections.len() - j,
        {
            assert(edges.subrange(0, j + 1).drop_last() =~= edges.subrange(0, j as int));
            let e = self.connections[j];
            if e.0 != id && e.1 != id {
                assert(keep(e));
                left.push(e);
            } else {
                assert(!keep(e));
            }
            j = j + 1;
        }
        assert(edges.subrange(0, edges.len() as int) =~= edges);
        self.components = kept;
        self.connections = left;
        was_present
    }

    /// The sum of the active-power envelopes of a component's direct children.
    /// `envelopes` holds the envelope of each component that reports one.
    /// None where no registered child reports one.
    pub fn aggregate_child_bounds<F: Fn(Scalar, Scalar) -> Scalar>(
        &self,
        parent: u64,
        envelopes: &BTreeMap<u64, VecBounds>,
        plus: F,
    ) -> (out: Option<VecBounds>)
        requires
            forall|a: Scalar, b: Scalar| call_requires(plus, (a, b)),
        ensures
            ({
                let found = reported(
                    children(self.connections@, parent),
                    self.components@,
                    envelopes@,
                );
                match out {
                    None => found.len() == 0,
                    Some(sum) => found.len() > 0 && is_sum(plus, found, sum@),
                }
            }),
    {
        let ids = self.children_of(parent);
        let mut found: Vec<VecBounds> = Vec::new();
        let mut i: usize = 0;
        assert(ids@.take(0) =~= Seq::<u64>::empty());
        assert(unions(found@) =~= reported(ids@.take(0), self.components@, envelopes@));
        while i < ids.len()
            invariant
                i <= ids.len(),
                unions(found@) == reported(
                    ids@.take(i as int),
                    self.components@,
                    envelopes@,
                ),
            decreases ids.len() - i,
        {
            assert(ids@.take(i + 1).drop_last() =~= ids@.take(i as int));
            let id = ids[i];
            if self.get(id).is_some() {
                if let Some(b) = envelopes.get(&id) {
                    let ghost before = unions(found@);
                    found.push(b.clone());
                    assert(unions(found@) =~= before.push(envelopes@[id]@));
                }
            }
            i = i + 1;
        }
        assert(ids@.take(ids@.len() as int) =~= ids@);
        assert(unions(found@).len() == found@.len());
        if found.len() == 0 {
            None
        } else {
            Some(VecBounds::sum_single(found, plus))
        }
    }

    /// The batteries' current state of charge.
    pub fn current_socs(&self, telemetry: &Vec<Telemetry>) -> (out: Vec<Scalar>)
        requires
            telemetry.len() == self.components.len(),
        ensures
            out@ == battery_socs(self.components@, telemetry@),
    {
        let mut out: Vec<Scalar> = Vec::new();
        let mut i: usize = 0;
        while i < telemetry.len()
            invariant
                i <= telemetry.len(),
                telemetry.len() == self.components.len(),
                out@ == battery_socs(
                    self.components@.take(i as int),
                    telemetry@.take(i as int),
                ),
            decreases telemetry.len() - i,
        {
            assert(self.components@.take(i + 1).drop_last() =~= self.components@.take(i as int));
            assert(telemetry@.take(i + 1).drop_last() =~= telemetry@.take(i as int));
            if let Category::Battery = self.components[i].category {
                if let Some(s) = telemetry[i].soc_pct {
                    out.push(s);
                }
            }
            i = i + 1;
        }
        assert(self.components@.take(self.components@.len() as int) =~= self.components@);
        assert(telemetry@.take(telemetry@.len() as int) =~= telemetry@);
        out
    }

    /// Appends a setpoint event to a component's log and returns the event to
    /// fan out.
    pub fn log_setpoint(&mut self, id: u64, event: SetpointEvent) -> (out: SiteEvent)
        requires
            old(self).wf(),
            event.ts.in_calendar(),
        ensures
            final(self).wf(),
            logs_setpoint(*old(self), *final(self), id, event, out),
    {
        let ts_ms: i64 = event.ts.millis();
        let setpoint_kind = event.kind;
        let value = event.value;
        let (accepted, reason) = event.outcome.verdict();
        let mut log = match self.setpoint_logs.remove(&id) {
            Some(l) => l,
            None => SetpointLog::new(SETPOINT_LOG_CAPACITY),
        };
        log.push(event);
        self.setpoint_logs.insert(id, log);
        SiteEvent::Setpoint { id, ts_ms, setpoint_kind, value, accepted, reason }
    }

    /// The recent setpoint events of one component.
    pub fn setpoints_window(&self, id: u64, since: Moment) -> (out: Vec<SetpointEvent>)
        ensures
            self.setpoint_logs@.contains_key(id) ==> is_event_window(
                self.setpoints(id),
                since,
                out@,
            ),
            !self.setpoint_logs@.contains_key(id) ==> out@.len() == 0,
    {
        match self.setpoint_logs.get(&id) {
            Some(log) => log.iter_window(since),
            None => Vec::new(),
        }
    }

    /// A window of one component's history of one metric; absent where none
    /// was recorded.
    pub fn history_window(&self, id: u64, metric: Metric, since: Moment) -> (out: Option<
        Vec<Sample>,
    >)
        ensures
            out is Some == self.has_ring(id, metric),
            out matches Some(w) ==> is_sample_window(self.ring(id, metric), since, w@),
    {
        match self.histories.get(&id) {
            Some(h) => match h.get(metric) {
                Some(series) => Some(series.iter_window(since)),
                None => None,
            },
            None => None,
        }
    }

    /// The metrics that a component has history of.
    pub fn history_metrics(&self, id: u64) -> (out: Vec<Metric>)
        ensures
            forall|m: Metric| #[trigger] out@.contains(m) == self.has_ring(id, m),
            out@.no_duplicates(),
    {
        match self.histories.get(&id) {
            Some(h) => h.metrics(),
            None => {
                let out: Vec<Metric> = Vec::new();
                assert forall|m: Metric| #[trigger] out@.contains(m) == self.has_ring(id, m) by {
                    assert(!out@.contains(m));
                }
                out
            },
        }
    }
}

/// A kept edge is one that was there and that `keep` accepts.
proof fn kept_edge(
    connections: Seq<(u64, u64)>,
    keep: spec_fn((u64, u64)) -> bool,
    edge: (u64, u64),
)
    ensures
        edges_where(connections, keep).contains(edge) == (connections.contains(edge) && keep(edge)),
    decreases connections.len(),
{
    if connections.len() > 0 {
        let init = connections.drop_last();
        let last = connections.last();
        let rest = edges_where(init, keep);
        kept_edge(init, keep, edge);
        if init.contains(edge) {
            let k = choose|k: int| 0 <= k < init.len() && init[k] == edge;
            assert(connections[k] == edge);
        }
        if connections.contains(edge) && edge != last {
            let k = choose|k: int| 0 <= k < connections.len() && connections[k] == edge;
            assert(init[k] == edge);
        }
        if edge == last {
            assert(connections[connections.len() - 1] == edge);
        }
        if keep(last) {
            let all = rest.push(last);
            if edge == last {
                assert(all[rest.len() as int] == edge);
            }
            if rest.contains(edge) {
                let k = choose|k: int| 0 <= k < rest.len() && rest[k] == edge;
                assert(all[k] == edge);
            }
            if all.contains(edge) && edge != last {
                let k = choose|k: int| 0 <= k < all.len() && all[k] == edge;
                assert(rest[k] == edge);
            }
        }
    }
}

/// A removed component is found no longer, every other one still is, and the
/// edges that remain are those that do not touch it.
pub proof fn removed_component_is_gone(
    components: Seq<Component>,
    connections: Seq<(u64, u64)>,
    id: u64,
    other: u64,
    edge: (u64, u64),
)
    ensures
        component_of(without_component(components, id), id) is None,
        other != id ==> component_of(without_component(components, id), other) == component_of(
            components,
            other,
        ),
        edges_where(connections, |e: (u64, u64)| e.0 != id && e.1 != id).contains(edge) == (
        connections.contains(edge) && edge.0 != id && edge.1 != id),
    decreases components.len(),
{
    kept_edge(connections, |e: (u64, u64)| e.0 != id && e.1 != id, edge);
    if components.len() > 0 {
        let init = components.drop_last();
        removed_component_is_gone(init, connections, id, other, edge);
        let rest = without_component(init, id);
        assert(rest.push(components.last()).drop_last() =~= rest);
    }
}

/// Every edge is either visible or hidden, and none is both.
pub proof fn edges_are_visible_or_hidden(
    components: Seq<Component>,
    connections: Seq<(u64, u64)>,
    edge: (u64, u64),
)
    ensures
        ({
            let visible = edges_where(connections, |e: (u64, u64)| is_visible(components, e));
            let hidden = edges_where(connections, |e: (u64, u64)| !is_visible(components, e));
            &&& connections.contains(edge) == (visible.contains(edge) || hidden.contains(edge))
            &&& !(visible.contains(edge) && hidden.contains(edge))
            &&& visible.len() + hidden.len() == connections.len()
        }),
    decreases connections.len(),
{
    let seen = |e: (u64, u64)| is_visible(components, e);
    let unseen = |e: (u64, u64)| !is_visible(components, e);
    kept_edge(connections, seen, edge);
    kept_edge(connections, unseen, edge);
    if connections.len() > 0 {
        edges_are_visible_or_hidden(components, connections.drop_last(), edge);
    }
}

/// A disconnected pair has no edge left, and every other edge stays.
pub proof fn disconnecting_drops_only_the_pair(
    connections: Seq<(u64, u64)>,
    parent: u64,
    child: u64,
    edge: (u64, u64),
)
    ensures
        edges_where(connections, |e: (u64, u64)| e != (parent, child)).contains(edge) == (
        connections.contains(edge) && edge != (parent, child)),
{
    kept_edge(connections, |e: (u64, u64)| e != (parent, child), edge);
}

/// A new edge adds one child to its parent, behind the others, and one parent
/// to its child; nothing else changes.
pub proof fn connecting_adds_one_edge(
    connections: Seq<(u64, u64)>,
    parent: u64,
    child: u64,
    id: u64,
)
    ensures
        children(connections.push((parent, child)), id) == (if id == parent {
            children(connections, id).push(child)
        } else {
            children(connections, id)
        }),
        parents(connections.push((parent, child)), id) == parents(connections, id) + (if id
            == child {
            1nat
        } else {
            0
        }),
{
    assert(connections.push((parent, child)).drop_last() =~= connections);
}

/// A component is found exactly where it is registered, and of several under
/// one id the one registered last.
pub proof fn component_is_registered(components: Seq<Component>, id: u64)
    ensures
        component_of(components, id) is Some == (exists|c: int|
            0 <= c < components.len() && (#[trigger] components[c]).id == id),
        component_of(components, id) matches Some(found) ==> exists|c: int|
            0 <= c < components.len() && #[trigger] components[c] == found && found.id == id && (
            forall|later: int|
                c < later < components.len() ==> (#[trigger] components[later]).id != id),
    decreases components.len(),
{
    if components.len() > 0 {
        let last = components.len() - 1;
        let init = components.drop_last();
        component_is_registered(init, id);
        if components[last].id == id {
            assert(components[last].id == id);
        } else {
            if exists|c: int| 0 <= c < components.len() && (#[trigger] components[c]).id == id {
                let c = choose|c: int|
                    0 <= c < components.len() && (#[trigger] components[c]).id == id;
                assert(init[c].id == id);
            }
            if let Some(found) = component_of(init, id) {
                let c = choose|c: int|
                    0 <= c < init.len() && #[trigger] init[c] == found && found.id == id && (
                    forall|later: int|
                        c < later < init.len() ==> (#[trigger] init[later]).id != id);
                assert(components[c] == found);
                assert forall|later: int| c < later < components.len() implies (
                #[trigger] components[later]).id != id by {
                    if later < last {
                        assert(init[later].id != id);
                    }
                }
            }
        }
    }
}

/// As many meters share a component as edges lead to it.
pub proof fn parents_are_edges(connections: Seq<(u64, u64)>, id: u64)
    ensures
        parents(connections, id) == connections.filter(|e: (u64, u64)| e.1 == id).len(),
        parents(connections, id) <= connections.len(),
    decreases connections.len(),
{
    reveal(Seq::filter);
    if connections.len() > 0 {
        parents_are_edges(connections.drop_last(), id);
    }
}

/// The children of a component are the far ends of the edges that leave it, in
/// the order in which they were added.
pub proof fn children_are_edges(connections: Seq<(u64, u64)>, parent: u64)
    ensures
        children(connections, parent) == connections.filter(
            |e: (u64, u64)| e.0 == parent,
        ).map_values(|e: (u64, u64)| e.1),
        forall|child: u64|
            children(connections, parent).contains(child) <==> #[trigger] connections.contains(
                (parent, child),
            ),
    decreases connections.len(),
{
    reveal(Seq::filter);
    let keep = |e: (u64, u64)| e.0 == parent;
    let far = |e: (u64, u64)| e.1;
    let out = children(connections, parent);
    if connections.len() > 0 {
        let init = connections.drop_last();
        let last = connections.last();
        children_are_edges(init, parent);
        assert(out =~= connections.filter(keep).map_values(far));
        assert forall|child: u64| out.contains(child) <==> #[trigger] connections.contains(
            (parent, child),
        ) by {
            let rest = children(init, parent);
            assert(init.contains((parent, child)) <==> rest.contains(child));
            if connections.contains((parent, child)) {
                let k = choose|k: int|
                    0 <= k < connections.len() && connections[k] == (parent, child);
                if k < init.len() {
                    assert(init[k] == (parent, child));
                    let m = choose|m: int| 0 <= m < rest.len() && rest[m] == child;
                    assert(out[m] == child);
                } else {
                    assert(out[rest.len() as int] == child);
                }
            }
            if out.contains(child) {
                let m = choose|m: int| 0 <= m < out.len() && out[m] == child;
                if m < rest.len() {
                    assert(rest[m] == child);
                    let k = choose|k: int| 0 <= k < init.len() && init[k] == (parent, child);
                    assert(connections[k] == (parent, child));
                } else {
                    assert(connections[connections.len() - 1] == (parent, child));
                }
            }
        }
    } else {
        assert(out =~= connections.filter(keep).map_values(far));
    }
}

/// Edges are picked one by one, in order, and none is made up.
pub proof fn picked_edges_are_edges(
    connections: Seq<(u64, u64)>,
    keep: spec_fn((u64, u64)) -> bool,
)
    ensures
        edges_where(connections, keep) == connections.filter(keep),
    decreases connections.len(),
{
    reveal(Seq::filter);
    if connections.len() > 0 {
        picked_edges_are_edges(connections.drop_last(), keep);
    }
    assert(edges_where(connections, keep) =~= connections.filter(keep));
}

/// Removing a component takes out every registration under its id and no
/// other, and keeps the order of the rest.
pub proof fn removal_takes_out_one_id(components: Seq<Component>, id: u64)
    ensures
        without_component(components, id) == components.filter(|c: Component| c.id != id),
        component_of(without_component(components, id), id) is None,
        forall|other: u64|
            other != id ==> #[trigger] component_of(without_component(components, id), other)
                == component_of(components, other),
    decreases components.len(),
{
    reveal(Seq::filter);
    let out = without_component(components, id);
    if components.len() > 0 {
        let init = components.drop_last();
        let last = components.last();
        removal_takes_out_one_id(init, id);
        let rest = without_component(init, id);
        if last.id != id {
            assert(out.drop_last() =~= rest);
        }
        assert forall|other: u64| other != id implies #[trigger] component_of(out, other)
            == component_of(components, other) by {
            assert(component_of(rest, other) == component_of(init, other));
        }
    }
    assert(out =~= components.filter(|c: Component| c.id != id));
}

/// A component is hidden exactly where its latest registration says so, and an
/// edge is visible where neither end is.
pub proof fn hiding_follows_the_registration(components: Seq<Component>, edge: (u64, u64))
    ensures
        is_hidden(components, edge.0) ==> exists|c: int|
            0 <= c < components.len() && (#[trigger] components[c]).id == edge.0
                && components[c].hidden,
        is_visible(components, edge) <==> !is_hidden(components, edge.0) && !is_hidden(
            components,
            edge.1,
        ),
        (forall|c: int|
            0 <= c < components.len() && (#[trigger] components[c]).id == edge.0
                ==> components[c].hidden) && component_of(components, edge.0) is Some
            ==> is_hidden(components, edge.0),
        component_of(components, edge.0) is None ==> !is_hidden(components, edge.0),
{
    component_is_registered(components, edge.0);
}

/// The charges of a report are those of the batteries that publish one, in
/// registration order.
pub proof fn one_more_component_adds_its_charge(
    components: Seq<Component>,
    telemetry: Seq<Telemetry>,
    c: Component,
    t: Telemetry,
)
    requires
        components.len() == telemetry.len(),
    ensures
        c.category == Category::Battery && t.soc_pct is Some ==> battery_socs(
            components.push(c),
            telemetry.push(t),
        ) == battery_socs(components, telemetry).push(t.soc_pct->0),
        c.category != Category::Battery || t.soc_pct is None ==> battery_socs(
            components.push(c),
            telemetry.push(t),
        ) == battery_socs(components, telemetry),
{
    assert(components.push(c).drop_last() =~= components);
    assert(telemetry.push(t).drop_last() =~= telemetry);
}

/// One more id adds the envelope that a registered component of that id reports,
/// and nothing where it reports none or is not registered.
pub proof fn one_more_id_adds_its_envelope(
    ids: Seq<u64>,
    id: u64,
    components: Seq<Component>,
    envelopes: Map<u64, VecBounds>,
)
    ensures
        reported(Seq::empty(), components, envelopes).len() == 0,
        !envelopes.contains_key(id) ==> reported(ids.push(id), components, envelopes) == reported(
            ids,
            components,
            envelopes,
        ),
        (forall|i: int| 0 <= i < components.len() ==> (#[trigger] components[i]).id != id)
            ==> reported(ids.push(id), components, envelopes) == reported(
            ids,
            components,
            envelopes,
        ),
        envelopes.contains_key(id) && (exists|i: int|
            0 <= i < components.len() && (#[trigger] components[i]).id == id) ==> reported(
            ids.push(id),
            components,
            envelopes,
        ) == reported(ids, components, envelopes).push(envelopes[id]@),
{
    assert(ids.push(id).drop_last() =~= ids);
    component_is_registered(components, id);
}

/// A component is shown by the name it was given last, else by its own.
pub proof fn latest_name_is_shown(registry: Registry, id: u64, c: Component)
    ensures
        registry.name_overrides@.contains_key(id) ==> registry.spec_display_name(id) == Some(
            registry.name_overrides@[id]@,
        ),
        !registry.name_overrides@.contains_key(id) && component_of(registry.components@, id)
            == Some(c) ==> registry.spec_display_name(id) == Some(c.name@),
        !registry.name_overrides@.contains_key(id) && component_of(
            registry.components@,
            id,
        ) is None ==> registry.spec_display_name(id) is None,
{
}

/// The knobs of a component are those that were set, and all normal before.
pub proof fn knobs_are_as_set(registry: Registry, id: u64)
    ensures
        registry.runtime@.contains_key(id) ==> registry.spec_runtime(id) == registry.runtime@[id],
        !registry.runtime@.contains_key(id) ==> registry.spec_runtime(id).health
            == Health::Healthy && registry.spec_runtime(id).telemetry == TelemetryMode::Normal
            && registry.spec_runtime(id).command == CommandMode::Normal,
{
}

/// A logged setpoint is the newest of its component's log, leaves every other
/// log alone, and goes out as it was asked: with the reason exactly where it was
/// refused.
pub proof fn logged_setpoint_is_told(
    before: Registry,
    after: Registry,
    id: u64,
    event: SetpointEvent,
    out: SiteEvent,
)
    requires
        logs_setpoint(before, after, id, event, out),
        event.ts.in_calendar(),
        before.setpoints(id).len() <= SETPOINT_LOG_CAPACITY,
    ensures
        after.setpoints(id).len() > 0,
        after.setpoints(id).last() == event,
        after.setpoints(id).len() <= SETPOINT_LOG_CAPACITY,
        forall|other: u64|
            other != id ==> #[trigger] after.setpoints(other) == before.setpoints(other),
        out matches SiteEvent::Setpoint { id: whose, ts_ms, setpoint_kind, value, accepted, reason }
            && {
            &&& whose == id
            &&& ts_ms * 1_000_000 <= event.ts.nanos < (ts_ms + 1) * 1_000_000
            &&& setpoint_kind == event.kind
            &&& value == event.value
            &&& accepted <==> reason is None
            &&& event.outcome matches SetpointOutcome::Rejected { reason: why } ==> reason == Some(
                why,
            )
            &&& event.outcome is Accepted ==> accepted
        },
{
}

} // verus!
