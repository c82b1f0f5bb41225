//! The component graph that a control application sees, and its validation.

use crate::component::Category;
use crate::order::filtering_keeps_what_passes;
use crate::registry::{edges_where, is_hidden, is_visible, picked_edges_are_edges, Component};
use crate::site::MicrogridSite;
use crate::text::same_text;
use frequenz_microgrid_component_graph::{
    BatteryType, ComponentCategory, ComponentGraph, ComponentGraphConfig, Edge, EvChargerType,
    InverterType, Node,
};
use vstd::prelude::*;

verus! {

/// `frequenz_microgrid_component_graph::ComponentCategory`, carried through
/// unopened.
#[verifier::external_type_specification]
#[verifier::external_body]
pub struct ExComponentCategory(ComponentCategory);

/// What the graph tells apart.
#[derive(Clone, Copy, Debug, PartialEq, Eq, Structural)]
pub enum NodeCategory {
    GridConnectionPoint,
    Meter,
    PvInverter,
    BatteryInverter,
    HybridInverter,
    UnspecifiedInverter,
    LiIonBattery,
    NaIonBattery,
    UnspecifiedBattery,
    AcEvCharger,
    DcEvCharger,
    HybridEvCharger,
    UnspecifiedEvCharger,
    Chp,
}

/// One component of the graph.
#[derive(Clone, Copy, Debug, PartialEq, Eq, Structural)]
pub struct GraphNode {
    pub id: u64,
    pub category: NodeCategory,
}

/// One connection of the graph.
#[derive(Clone, Copy, Debug, PartialEq, Eq, Structural)]
pub struct GraphEdge {
    pub source: u64,
    pub destination: u64,
}

impl Node for GraphNode {
    fn component_id(&self) -> (out: u64)
        ensures
            out == self.id,
    {
        self.id
    }

    /// The same category as `frequenz_microgrid_component_graph` names it; a
    /// plain renaming of which nothing is stated, the result being unopened.
    #[verifier::external_body]
    fn category(&self) -> (out: ComponentCategory) {
        match self.category {
            NodeCategory::GridConnectionPoint => ComponentCategory::GridConnectionPoint,
            NodeCategory::Meter => ComponentCategory::Meter,
            NodeCategory::PvInverter => ComponentCategory::Inverter(InverterType::Pv),
            NodeCategory::BatteryInverter => ComponentCategory::Inverter(InverterType::Battery),
            NodeCategory::HybridInverter => ComponentCategory::Inverter(InverterType::Hybrid),
            NodeCategory::UnspecifiedInverter => ComponentCategory::Inverter(InverterType::Unspecified),
            NodeCategory::LiIonBattery => ComponentCategory::Battery(BatteryType::LiIon),
            NodeCategory::NaIonBattery => ComponentCategory::Battery(BatteryType::NaIon),
            NodeCategory::UnspecifiedBattery => ComponentCategory::Battery(BatteryType::Unspecified),
            NodeCategory::AcEvCharger => ComponentCategory::EvCharger(EvChargerType::Ac),
            NodeCategory::DcEvCharger => ComponentCategory::EvCharger(EvChargerType::Dc),
            NodeCategory::HybridEvCharger => ComponentCategory::EvCharger(EvChargerType::Hybrid),
            NodeCategory::UnspecifiedEvCharger => ComponentCategory::EvCharger(EvChargerType::Unspecified),
            NodeCategory::Chp => ComponentCategory::Chp }
    }
}

impl Edge for GraphEdge {
    fn source(&self) -> (out: u64)
        ensures
            out == self.source,
    {
        self.source
    }

    fn destination(&self) -> (out: u64)
        ensures
            out == self.destination,
    {
        self.destination
    }
}

/// The graph's category for a component's category and subtype. A subtype
/// that says nothing leaves the kind unspecified.
pub open spec fn lifted(category: Category, subtype: Option<Seq<char>>) -> NodeCategory {
    match category {
        Category::Grid => NodeCategory::GridConnectionPoint,
        Category::Meter => NodeCategory::Meter,
        Category::Inverter => if subtype == Some("battery"@) {
            NodeCategory::BatteryInverter
        } else if subtype == Some("solar"@) || subtype == Some("pv"@) {
            NodeCategory::PvInverter
        } else if subtype == Some("hybrid"@) {
            NodeCategory::HybridInverter
        } else {
            NodeCategory::UnspecifiedInverter
        },
        Category::Battery => if subtype == Some("li-ion"@) || subtype == Some("liion"@) {
            NodeCategory::LiIonBattery
        } else if subtype == Some("na-ion"@) || subtype == Some("naion"@) {
            NodeCategory::NaIonBattery
        } else {
            NodeCategory::UnspecifiedBattery
        },
        Category::EvCharger => if subtype == Some("ac"@) {
            NodeCategory::AcEvCharger
        } else if subtype == Some("dc"@) {
            NodeCategory::DcEvCharger
        } else if subtype == Some("hybrid"@) {
            NodeCategory::HybridEvCharger
        } else {
            NodeCategory::UnspecifiedEvCharger
        },
        Category::Chp => NodeCategory::Chp,
    }
}

/// What an optional text holds.
pub open spec fn text_in(subtype: Option<&str>) -> Option<Seq<char>> {
    match subtype {
        Some(s) => Some(s@),
        None => None,
    }
}

fn is(subtype: Option<&str>, name: &str) -> (out: bool)
    ensures
        out == (text_in(subtype) == Some(name@)),
{
    match subtype {
        Some(s) => same_text(s, name),
        None => false,
    }
}

pub fn lift_category(category: Category, subtype: Option<&str>) -> (out: NodeCategory)
    ensures
        out == lifted(category, text_in(subtype)),
{
    match category {
        Category::Grid => NodeCategory::GridConnectionPoint,
        Category::Meter => NodeCategory::Meter,
        Category::Inverter => if is(subtype, "battery") {
            NodeCategory::BatteryInverter
        } else if is(subtype, "solar") || is(subtype, "pv") {
            NodeCategory::PvInverter
        } else if is(subtype, "hybrid") {
            NodeCategory::HybridInverter
        } else {
            NodeCategory::UnspecifiedInverter
        },
        Category::Battery => if is(subtype, "li-ion") || is(subtype, "liion") {
            NodeCategory::LiIonBattery
        } else if is(subtype, "na-ion") || is(subtype, "naion") {
            NodeCategory::NaIonBattery
        } else {
            NodeCategory::UnspecifiedBattery
        },
        Category::EvCharger => if is(subtype, "ac") {
            NodeCategory::AcEvCharger
        } else if is(subtype, "dc") {
            NodeCategory::DcEvCharger
        } else if is(subtype, "hybrid") {
            NodeCategory::HybridEvCharger
        } else {
            NodeCategory::UnspecifiedEvCharger
        },
        Category::Chp => NodeCategory::Chp,
    }
}

/// The node of a component.
pub open spec fn node_of(c: Component) -> GraphNode {
    GraphNode {
        id: c.id,
        category: lifted(
            c.category,
            match c.subtype {
                Some(s) => Some(s@),
                None => None,
            },
        ),
    }
}

/// The nodes of the components that are not hidden, in registration order.
pub open spec fn visible_nodes(components: Seq<Component>) -> Seq<GraphNode>
    decreases components.len(),
{
    if components.len() == 0 {
        Seq::empty()
    } else if components.last().hidden {
        visible_nodes(components.drop_last())
    } else {
        visible_nodes(components.drop_last()).push(node_of(components.last()))
    }
}

/// The edge of a connection.
pub open spec fn edge_of(e: (u64, u64)) -> GraphEdge {
    GraphEdge { source: e.0, destination: e.1 }
}

/// The visible edges of a site.
pub open spec fn visible_edges(components: Seq<Component>, connections: Seq<(u64, u64)>) -> Seq<
    GraphEdge,
> {
    edges_where(connections, |e: (u64, u64)| is_visible(components, e)).map_values(
        |e: (u64, u64)| edge_of(e),
    )
}

/// The graph that the site shows: its visible nodes and edges.
pub fn snapshot(site: &MicrogridSite) -> (out: (Vec<GraphNode>, Vec<GraphEdge>))
    ensures
        out.0@ == visible_nodes(site.registry.components@),
        out.1@ == visible_edges(site.registry.components@, site.registry.connections@),
        out.0.len() <= site.registry.components.len(),
        out.1.len() <= site.registry.connections.len(),
{
    let comps = &site.registry.components;
    let mut nodes: Vec<GraphNode> = Vec::new();
    let mut i: usize = 0;
    assert(comps@.take(0) =~= Seq::<Component>::empty());
    while i < comps.len()
        invariant
            i <= comps.len(),
            nodes.len() <= i,
            nodes@ == visible_nodes(comps@.take(i as int)),
        decreases comps.len() - i,
    {
        assert(comps@.take(i + 1).drop_last() =~= comps@.take(i as int));
        if !comps[i].hidden {
            let subtype = match &comps[i].subtype {
                Some(s) => Some(s.as_str()),
                None => None,
            };
            let category = lift_category(comps[i].category, subtype);
            nodes.push(GraphNode { id: comps[i].id, category });
        }
        i = i + 1;
    }
    assert(comps@.take(comps@.len() as int) =~= comps@);
    let shown = site.connections();
    let mut edges: Vec<GraphEdge> = Vec::new();
    let mut j: usize = 0;
    while j < shown.len()
        invariant
            j <= shown.len(),
            edges@ == shown@.take(j as int).map_values(|e: (u64, u64)| edge_of(e)),
        decreases shown.len() - j,
    {
        let (source, destination) = shown[j];
        edges.push(GraphEdge { source, destination });
        j = j + 1;
        assert(edges@ =~= shown@.take(j as int).map_values(|e: (u64, u64)| edge_of(e)));
    }
    assert(shown@.take(shown@.len() as int) =~= shown@);
    proof {
        kept_edges_are_fewer(
            site.registry.connections@,
            |e: (u64, u64)| is_visible(site.registry.components@, e),
        );
    }
    (nodes, edges)
}

proof fn kept_edges_are_fewer(
    connections: Seq<(u64, u64)>,
    keep: spec_fn((u64, u64)) -> bool,
)
    ensures
        edges_where(connections, keep).len() <= connections.len(),
    decreases connections.len(),
{
    if connections.len() > 0 {
        kept_edges_are_fewer(connections.drop_last(), keep);
    }
}

/// What is wrong with a graph, as `ComponentGraph::try_new` reports it under
/// its default configuration; nothing for a graph that it accepts.
pub uninterp spec fn graph_fault(nodes: Seq<GraphNode>, edges: Seq<GraphEdge>) -> Option<Seq<char>>;

/// A node has that id.
pub open spec fn has_node(nodes: Seq<GraphNode>, id: u64) -> bool {
    exists|i: int| 0 <= i < nodes.len() && (#[trigger] nodes[i]).id == id
}

/// Ids are unique, one node is the grid connection point and no other is, no
/// inverter is unspecified, and every edge joins two different nodes.
pub open spec fn is_sound(nodes: Seq<GraphNode>, edges: Seq<GraphEdge>) -> bool {
    &&& forall|i: int, j: int| 0 <= i < j < nodes.len() ==> nodes[i].id != nodes[j].id
    &&& exists|g: int|
        0 <= g < nodes.len() && nodes[g].category == NodeCategory::GridConnectionPoint && forall|
            i: int,
        |
            0 <= i < nodes.len() && i != g ==> (#[trigger] nodes[i]).category
                != NodeCategory::GridConnectionPoint
    &&& forall|i: int|
        0 <= i < nodes.len() ==> (#[trigger] nodes[i]).category
            != NodeCategory::UnspecifiedInverter
    &&& forall|i: int|
        0 <= i < edges.len() ==> (#[trigger] edges[i]).source != edges[i].destination && has_node(
            nodes,
            edges[i].source,
        ) && has_node(nodes, edges[i].destination)
}

/// A graph that passed validation, held as a
/// `frequenz_microgrid_component_graph::ComponentGraph`.
#[verifier::external_body]
pub struct ValidGraph {
    graph: ComponentGraph<GraphNode, GraphEdge>,
}

/// The nodes that a graph was made of.
pub uninterp spec fn nodes_of(graph: ValidGraph) -> Seq<GraphNode>;

/// The edges that a graph was made of.
pub uninterp spec fn edges_of(graph: ValidGraph) -> Seq<GraphEdge>;

/// `frequenz_microgrid_component_graph::ComponentGraph::try_new` with the
/// default configuration. Which graphs it accepts, and the text of what is
/// wrong with the others, is left to it; an accepted graph is at least sound
/// in the sense of [`is_sound`]. Node and edge counts stay below what its
/// indices can hold. It walks every path of the graph by recursion.
#[verifier::external_body]
pub fn build_from(nodes: Vec<GraphNode>, edges: Vec<GraphEdge>) -> (out: Result<
    ValidGraph,
    String,
>)
    requires
        nodes.len() < u32::MAX,
        edges.len() < u32::MAX,
    ensures
        match out {
            Ok(g) => graph_fault(nodes@, edges@) is None && is_sound(nodes@, edges@) && nodes_of(g)
                == nodes@ && edges_of(g) == edges@,
            Err(e) => graph_fault(nodes@, edges@) == Some(e@),
        },
{
    match ComponentGraph::try_new(nodes, edges, ComponentGraphConfig::default()) {
        Ok(graph) => Ok(ValidGraph { graph }),
        Err(e) => Err(e.to_string()),
    }
}

/// The validated graph that the site shows, or what is wrong with it.
pub fn build(site: &MicrogridSite) -> (out: Result<ValidGraph, String>)
    requires
        site.registry.components.len() < u32::MAX,
        site.registry.connections.len() < u32::MAX,
    ensures
        ({
            let nodes = visible_nodes(site.registry.components@);
            let edges = visible_edges(site.registry.components@, site.registry.connections@);
            match out {
                Ok(g) => graph_fault(nodes, edges) is None && is_sound(nodes, edges) && nodes_of(g)
                    == nodes && edges_of(g) == edges,
                Err(e) => graph_fault(nodes, edges) == Some(e@),
            }
        }),
{
    let (nodes, edges) = snapshot(site);
    build_from(nodes, edges)
}

/// What an optional string holds.
pub open spec fn held(text: Option<String>) -> Option<Seq<char>> {
    match text {
        Some(s) => Some(s@),
        None => None,
    }
}

/// The text of `ComponentGraph::grid_formula` for a graph; nothing where it
/// reports an error.
pub uninterp spec fn grid_formula_text(nodes: Seq<GraphNode>, edges: Seq<GraphEdge>) -> Option<
    Seq<char>,
>;

/// The text of `ComponentGraph::battery_formula` for a graph; nothing where it
/// reports an error.
pub uninterp spec fn battery_formula_text(nodes: Seq<GraphNode>, edges: Seq<GraphEdge>) -> Option<
    Seq<char>,
>;

/// The text of `ComponentGraph::pv_formula` for a graph; nothing where it
/// reports an error.
pub uninterp spec fn pv_formula_text(nodes: Seq<GraphNode>, edges: Seq<GraphEdge>) -> Option<
    Seq<char>,
>;

/// The text of `ComponentGraph::consumer_formula` for a graph; nothing where it
/// reports an error.
pub uninterp spec fn consumer_formula_text(nodes: Seq<GraphNode>, edges: Seq<GraphEdge>) -> Option<
    Seq<char>,
>;

/// The text of `ComponentGraph::producer_formula` for a graph; nothing where it
/// reports an error.
pub uninterp spec fn producer_formula_text(nodes: Seq<GraphNode>, edges: Seq<GraphEdge>) -> Option<
    Seq<char>,
>;

impl ValidGraph {
    /// `ComponentGraph::grid_formula`, rendered; absent where it reports an error.
    /// What the formula says is left to it.
    #[verifier::external_body]
    fn grid_formula(&self) -> (out: Option<String>)
        ensures
            held(out) == grid_formula_text(nodes_of(*self), edges_of(*self)),
    {
        self.graph.grid_formula().ok().map(|f| f.to_string())
    }

    /// `ComponentGraph::battery_formula`, rendered; absent where it reports an error.
    /// What the formula says is left to it.
    #[verifier::external_body]
    fn battery_formula(&self) -> (out: Option<String>)
        ensures
            held(out) == battery_formula_text(nodes_of(*self), edges_of(*self)),
    {
        self.graph.battery_formula(None).ok().map(|f| f.to_string())
    }

    /// `ComponentGraph::pv_formula`, rendered; absent where it reports an error.
    /// What the formula says is left to it.
    #[verifier::external_body]
    fn pv_formula(&self) -> (out: Option<String>)
        ensures
            held(out) == pv_formula_text(nodes_of(*self), edges_of(*self)),
    {
        self.graph.pv_formula(None).ok().map(|f| f.to_string())
    }

    /// `ComponentGraph::consumer_formula`, rendered; absent where it reports an error.
    /// What the formula says is left to it.
    #[verifier::external_body]
    fn consumer_formula(&self) -> (out: Option<String>)
        ensures
            held(out) == consumer_formula_text(nodes_of(*self), edges_of(*self)),
    {
        self.graph.consumer_formula().ok().map(|f| f.to_string())
    }

    /// `ComponentGraph::producer_formula`, rendered; absent where it reports an error.
    /// What the formula says is left to it.
    #[verifier::external_body]
    fn producer_formula(&self) -> (out: Option<String>)
        ensures
            held(out) == producer_formula_text(nodes_of(*self), edges_of(*self)),
    {
        self.graph.producer_formula().ok().map(|f| f.to_string())
    }
}

/// `list` with `(stream, text)` behind it, where there is a text.
pub open spec fn listed(
    list: Seq<(Seq<char>, Seq<char>)>,
    stream: Seq<char>,
    text: Option<Seq<char>>,
) -> Seq<(Seq<char>, Seq<char>)> {
    match text {
        Some(t) => list.push((stream, t)),
        None => list,
    }
}

/// The formula of each stream that has one.
pub open spec fn stream_formulas(nodes: Seq<GraphNode>, edges: Seq<GraphEdge>) -> Seq<
    (Seq<char>, Seq<char>),
> {
    let a = listed(Seq::empty(), "grid_power"@, grid_formula_text(nodes, edges));
    let b = listed(a, "battery_pool_power"@, battery_formula_text(nodes, edges));
    let c = listed(b, "pv_power"@, pv_formula_text(nodes, edges));
    let d = listed(c, "consumer_power"@, consumer_formula_text(nodes, edges));
    listed(d, "producer_power"@, producer_formula_text(nodes, edges))
}

/// What each entry holds.
pub open spec fn entries(list: Seq<(&'static str, String)>) -> Seq<(Seq<char>, Seq<char>)> {
    list.map_values(|e: (&'static str, String)| (e.0@, e.1@))
}

fn note(list: &mut Vec<(&'static str, String)>, stream: &'static str, text: Option<String>)
    ensures
        entries(final(list)@) == listed(entries(old(list)@), stream@, held(text)),
{
    if let Some(t) = text {
        let ghost before = entries(list@);
        list.push((stream, t));
        assert(entries(list@) =~= before.push((stream@, t@)));
    }
}

/// The formula of each aggregated stream that the graph has one for.
pub fn formulas(graph: &ValidGraph) -> (out: Vec<(&'static str, String)>)
    ensures
        entries(out@) == stream_formulas(nodes_of(*graph), edges_of(*graph)),
{
    let mut out: Vec<(&'static str, String)> = Vec::new();
    assert(entries(out@) =~= Seq::empty());
    note(&mut out, "grid_power", graph.grid_formula());
    note(&mut out, "battery_pool_power", graph.battery_formula());
    note(&mut out, "pv_power", graph.pv_formula());
    note(&mut out, "consumer_power", graph.consumer_formula());
    note(&mut out, "producer_power", graph.producer_formula());
    out
}

/// A site whose graph validates shows exactly one grid connection point.
pub proof fn valid_site_has_one_grid(nodes: Seq<GraphNode>, edges: Seq<GraphEdge>, i: int, j: int)
    requires
        is_sound(nodes, edges),
        0 <= i < nodes.len(),
        0 <= j < nodes.len(),
        nodes[i].category == NodeCategory::GridConnectionPoint,
        nodes[j].category == NodeCategory::GridConnectionPoint,
    ensures
        i == j,
{
}

/// The graph sees a component as what it is: the kind of inverter, battery or
/// charger follows its subtype, and one of an unknown subtype is unspecified,
/// but never another kind of device.
pub proof fn nodes_keep_their_kind(category: Category, subtype: Option<Seq<char>>)
    ensures
        lifted(category, subtype) == NodeCategory::GridConnectionPoint <==> category
            == Category::Grid,
        lifted(category, subtype) == NodeCategory::Meter <==> category == Category::Meter,
        lifted(category, subtype) == NodeCategory::Chp <==> category == Category::Chp,
        category == Category::Inverter <==> {
            ||| lifted(category, subtype) == NodeCategory::PvInverter
            ||| lifted(category, subtype) == NodeCategory::BatteryInverter
            ||| lifted(category, subtype) == NodeCategory::HybridInverter
            ||| lifted(category, subtype) == NodeCategory::UnspecifiedInverter
        },
        category == Category::Battery <==> {
            ||| lifted(category, subtype) == NodeCategory::LiIonBattery
            ||| lifted(category, subtype) == NodeCategory::NaIonBattery
            ||| lifted(category, subtype) == NodeCategory::UnspecifiedBattery
        },
        category == Category::EvCharger <==> {
            ||| lifted(category, subtype) == NodeCategory::AcEvCharger
            ||| lifted(category, subtype) == NodeCategory::DcEvCharger
            ||| lifted(category, subtype) == NodeCategory::HybridEvCharger
            ||| lifted(category, subtype) == NodeCategory::UnspecifiedEvCharger
        },
{
}

/// Each subtype names one kind.
pub proof fn subtypes_name_their_kind(subtype: Seq<char>)
    ensures
        lifted(Category::Inverter, Some(subtype)) == NodeCategory::PvInverter <==> subtype
            == "solar"@ || subtype == "pv"@,
        lifted(Category::Inverter, Some(subtype)) == NodeCategory::BatteryInverter <==> subtype
            == "battery"@,
        lifted(Category::Inverter, Some(subtype)) == NodeCategory::HybridInverter <==> subtype
            == "hybrid"@,
        lifted(Category::Inverter, None) == NodeCategory::UnspecifiedInverter,
        lifted(Category::Battery, Some(subtype)) == NodeCategory::LiIonBattery <==> subtype
            == "li-ion"@ || subtype == "liion"@,
        lifted(Category::Battery, Some(subtype)) == NodeCategory::NaIonBattery <==> subtype
            == "na-ion"@ || subtype == "naion"@,
        lifted(Category::Battery, None) == NodeCategory::UnspecifiedBattery,
        lifted(Category::EvCharger, Some(subtype)) == NodeCategory::AcEvCharger <==> subtype
            == "ac"@,
        lifted(Category::EvCharger, Some(subtype)) == NodeCategory::DcEvCharger <==> subtype
            == "dc"@,
        lifted(Category::EvCharger, Some(subtype)) == NodeCategory::HybridEvCharger <==> subtype
            == "hybrid"@,
        lifted(Category::EvCharger, None) == NodeCategory::UnspecifiedEvCharger,
{
    reveal_strlit("battery");
    reveal_strlit("solar");
    reveal_strlit("pv");
    reveal_strlit("hybrid");
    reveal_strlit("li-ion");
    reveal_strlit("liion");
    reveal_strlit("na-ion");
    reveal_strlit("naion");
    reveal_strlit("ac");
    reveal_strlit("dc");
    assert("battery"@[0] == 'b' && "solar"@[0] == 's' && "pv"@[0] == 'p' && "hybrid"@[0] == 'h');
    assert("li-ion"@[0] == 'l' && "liion"@[0] == 'l' && "na-ion"@[0] == 'n' && "naion"@[0] == 'n');
    assert("ac"@[0] == 'a' && "dc"@[0] == 'd');
}

/// A component that is shown stands in the graph once, under its own id; one
/// that is hidden does not.
pub proof fn one_more_component_adds_its_node(components: Seq<Component>, c: Component)
    ensures
        c.hidden ==> visible_nodes(components.push(c)) == visible_nodes(components),
        !c.hidden ==> visible_nodes(components.push(c)).len() == visible_nodes(components).len()
            + 1 && visible_nodes(components.push(c)).last().id == c.id && visible_nodes(
            components.push(c),
        ).last().category == lifted(
            c.category,
            match c.subtype {
                Some(s) => Some(s@),
                None => None,
            },
        ) && visible_nodes(components.push(c)).drop_last() == visible_nodes(components),
        visible_nodes(Seq::empty()).len() == 0,
{
    assert(components.push(c).drop_last() =~= components);
    assert(visible_nodes(components).push(node_of(c)).drop_last() =~= visible_nodes(components));
}

/// The edges of the graph are the connections between components that are
/// shown, from parent to child.
pub proof fn edges_join_shown_components(
    components: Seq<Component>,
    connections: Seq<(u64, u64)>,
    parent: u64,
    child: u64,
)
    ensures
        visible_edges(components, connections).contains(
            GraphEdge { source: parent, destination: child },
        ) <==> connections.contains((parent, child)) && !is_hidden(components, parent)
            && !is_hidden(components, child),
{
    let keep = |e: (u64, u64)| is_visible(components, e);
    let kept = edges_where(connections, keep);
    let edges = visible_edges(components, connections);
    let e = GraphEdge { source: parent, destination: child };
    picked_edges_are_edges(connections, keep);
    filtering_keeps_what_passes(connections, keep, (parent, child));
    if edges.contains(e) {
        let i = choose|i: int| 0 <= i < edges.len() && edges[i] == e;
        assert(kept[i] == (parent, child));
        assert(kept.contains((parent, child)));
    }
    if kept.contains((parent, child)) {
        let i = choose|i: int| 0 <= i < kept.len() && kept[i] == (parent, child);
        assert(edges[i] == e);
    }
}

/// Each aggregated stream is listed with its own formula, and only where the
/// graph has one.
pub proof fn streams_have_their_own_formulas(
    nodes: Seq<GraphNode>,
    edges: Seq<GraphEdge>,
    text: Seq<char>,
)
    ensures
        stream_formulas(nodes, edges).contains(("grid_power"@, text)) <==> grid_formula_text(
            nodes,
            edges,
        ) == Some(text),
        stream_formulas(nodes, edges).contains(("battery_pool_power"@, text))
            <==> battery_formula_text(nodes, edges) == Some(text),
        stream_formulas(nodes, edges).contains(("pv_power"@, text)) <==> pv_formula_text(
            nodes,
            edges,
        ) == Some(text),
        stream_formulas(nodes, edges).contains(("consumer_power"@, text))
            <==> consumer_formula_text(nodes, edges) == Some(text),
        stream_formulas(nodes, edges).contains(("producer_power"@, text))
            <==> producer_formula_text(nodes, edges) == Some(text),
        stream_formulas(nodes, edges).len() <= 5,
{
    reveal_strlit("grid_power");
    reveal_strlit("battery_pool_power");
    reveal_strlit("pv_power");
    reveal_strlit("consumer_power");
    reveal_strlit("producer_power");
    assert("grid_power"@.len() == 10 && "battery_pool_power"@.len() == 18);
    assert("pv_power"@.len() == 8);
    assert("consumer_power"@.len() == 14 && "producer_power"@.len() == 14);
    assert("consumer_power"@[0] != "producer_power"@[0]);
    let none = Seq::<(Seq<char>, Seq<char>)>::empty();
    let a = listed(none, "grid_power"@, grid_formula_text(nodes, edges));
    let b = listed(a, "battery_pool_power"@, battery_formula_text(nodes, edges));
    let c = listed(b, "pv_power"@, pv_formula_text(nodes, edges));
    let d = listed(c, "consumer_power"@, consumer_formula_text(nodes, edges));
    listing_adds_one(none, "grid_power"@, grid_formula_text(nodes, edges));
    listing_adds_one(a, "battery_pool_power"@, battery_formula_text(nodes, edges));
    listing_adds_one(b, "pv_power"@, pv_formula_text(nodes, edges));
    listing_adds_one(c, "consumer_power"@, consumer_formula_text(nodes, edges));
    listing_adds_one(d, "producer_power"@, producer_formula_text(nodes, edges));
}

proof fn listing_adds_one(
    list: Seq<(Seq<char>, Seq<char>)>,
    stream: Seq<char>,
    text: Option<Seq<char>>,
)
    ensures
        forall|name: Seq<char>, t: Seq<char>| #[trigger]
            listed(list, stream, text).contains((name, t)) <==> list.contains((name, t)) || (name
                == stream && text == Some(t)),
        listed(list, stream, text).len() <= list.len() + 1,
{
    let after = listed(list, stream, text);
    assert forall|name: Seq<char>, t: Seq<char>| #[trigger] after.contains((name, t))
        <==> list.contains((name, t)) || (name == stream && text == Some(t)) by {
        if list.contains((name, t)) {
            let i = choose|i: int| 0 <= i < list.len() && list[i] == (name, t);
            assert(after[i] == (name, t));
        }
        if name == stream && text == Some(t) {
            assert(after[list.len() as int] == (name, t));
        }
        if after.contains((name, t)) {
            let i = choose|i: int| 0 <= i < after.len() && after[i] == (name, t);
            if i < list.len() {
                assert(list[i] == (name, t));
            }
        }
    }
}

} // verus!
