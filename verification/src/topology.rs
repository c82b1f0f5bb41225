//! The topology of a site as a client sees it.

use crate::component::category_label;
use crate::registry::{component_of, edges_where, is_visible, Component, Registry};
use crate::runtime::{labels_parse_back, CommandMode, Health, TelemetryMode};
use crate::site::MicrogridSite;
use vstd::prelude::*;

verus! {

/// One component.
#[derive(Debug)]
pub struct ComponentSummary {
    pub id: u64,
    pub name: String,
    pub category: &'static str,
    pub subtype: Option<String>,
    pub hidden: bool,
    pub health: &'static str,
    pub telemetry_mode: &'static str,
    pub command_mode: &'static str,
}

/// A site's components and edges.
#[derive(Debug)]
pub struct TopologySnapshot {
    /// In registration order.
    pub components: Vec<ComponentSummary>,
    pub connections: Vec<(u64, u64)>,
    /// The edges with a hidden end.
    pub hidden_connections: Vec<(u64, u64)>,
    /// Why the graph was rejected, if it was.
    pub graph_status: Option<String>,
    pub main_meter_id: Option<u64>,
}

impl ComponentSummary {
    /// The summary shows `c` as `registry` has it. An entry is shown by its
    /// display name and its knobs, which are those of its id.
    pub open spec fn shows(self, registry: Registry, c: Component) -> bool {
        let knobs = registry.spec_runtime(c.id);
        &&& self.id == c.id
        &&& Some(self.name@) == registry.spec_display_name(c.id)
        &&& self.category@ == c.category.spec_label()
        &&& self.subtype == c.subtype
        &&& self.hidden == c.hidden
        &&& self.health@ == knobs.health.spec_label()
        &&& self.telemetry_mode@ == knobs.telemetry.spec_label()
        &&& self.command_mode@ == knobs.command.spec_label()
    }
}

proof fn listed_component_has_name(registry: Registry, i: int)
    requires
        0 <= i < registry.components@.len(),
    ensures
        registry.spec_display_name(registry.components@[i].id) is Some,
{
    listed_component_is_found(registry.components@, i);
}

proof fn listed_component_is_found(components: Seq<Component>, i: int)
    requires
        0 <= i < components.len(),
    ensures
        component_of(components, components[i].id) is Some,
    decreases components.len(),
{
    if i < components.len() - 1 {
        listed_component_is_found(components.drop_last(), i);
    }
}

/// The topology of a site, with the outcome of its graph's validation.
pub fn topology_snapshot(site: &MicrogridSite, graph_status: Option<String>) -> (out:
    TopologySnapshot)
    ensures
        out.components@.len() == site.registry.components@.len(),
        forall|i: int|
            0 <= i < out.components@.len() ==> (#[trigger] out.components@[i]).shows(
                site.registry,
                site.registry.components@[i],
            ),
        out.connections@ == edges_where(
            site.registry.connections@,
            |e: (u64, u64)| is_visible(site.registry.components@, e),
        ),
        out.hidden_connections@ == edges_where(
            site.registry.connections@,
            |e: (u64, u64)| !is_visible(site.registry.components@, e),
        ),
        out.graph_status == graph_status,
        out.main_meter_id == site.registry.main_meter_id,
{
    let listed = site.components();
    let mut components: Vec<ComponentSummary> = Vec::new();
    let mut i: usize = 0;
    while i < listed.len()
        invariant
            i <= listed.len(),
            components.len() == i,
            *listed == site.registry.components,
            forall|k: int|
                0 <= k < i ==> (#[trigger] components@[k]).shows(
                    site.registry,
                    site.registry.components@[k],
                ),
        decreases listed.len() - i,
    {
        proof {
            listed_component_has_name(site.registry, i as int);
        }
        let c = &listed[i];
        let knobs = site.runtime_of(c.id);
        let name = match site.display_name(c.id) {
            Some(n) => n,
            None => c.name.clone(),
        };
        components.push(
            ComponentSummary {
                id: c.id,
                name,
                category: category_label(c.category),
                subtype: match &c.subtype {
                    Some(s) => Some(s.clone()),
                    None => None,
                },
                hidden: c.hidden,
                health: knobs.health.label(),
                telemetry_mode: knobs.telemetry.label(),
                command_mode: knobs.command.label(),
            },
        );
        i = i + 1;
    }
    TopologySnapshot {
        components,
        connections: site.connections(),
        hidden_connections: site.hidden_connections(),
        graph_status,
        main_meter_id: site.main_meter_id(),
    }
}

/// A summary tells the knobs apart: each of its labels reads back as the setting
/// of its own knob, and the rest shows the component as it is registered.
pub proof fn summary_tells_every_knob(s: ComponentSummary, registry: Registry, c: Component)
    requires
        s.shows(registry, c),
    ensures
        s.id == c.id,
        s.hidden == c.hidden,
        s.subtype == c.subtype,
        s.category@ == c.category.spec_label(),
        Health::spec_parse(s.health@) == Some(registry.spec_runtime(c.id).health),
        TelemetryMode::spec_parse(s.telemetry_mode@) == Some(
            registry.spec_runtime(c.id).telemetry,
        ),
        CommandMode::spec_parse(s.command_mode@) == Some(registry.spec_runtime(c.id).command),
        registry.name_overrides@.contains_key(c.id) ==> s.name@
            == registry.name_overrides@[c.id]@,
{
    let knobs = registry.spec_runtime(c.id);
    labels_parse_back(knobs.health, knobs.telemetry, knobs.command);
}

} // verus!
