use switchyard::component::Category;
use switchyard::graph::{
    build, build_from, formulas, lift_category, snapshot, GraphEdge, GraphNode, NodeCategory,
    ValidGraph,
};
use switchyard::registry::Component;
use switchyard::site::MicrogridSite;

fn node(id: u64, category: NodeCategory) -> GraphNode {
    GraphNode { id, category }
}

fn edge(source: u64, destination: u64) -> GraphEdge {
    GraphEdge {
        source,
        destination,
    }
}

fn formula(graph: &ValidGraph, stream: &str) -> Option<String> {
    formulas(graph)
        .into_iter()
        .find(|(name, _)| *name == stream)
        .map(|(_, text)| text)
}

fn component(id: u64, category: Category, subtype: Option<&str>, hidden: bool) -> Component {
    Component {
        id,
        category,
        name: format!("c-{id}"),
        subtype: subtype.map(|x| x.to_string()),
        hidden,
    }
}

#[test]
fn lift_category_maps_every_variant() {
    assert_eq!(lift_category(Category::Grid, None), NodeCategory::GridConnectionPoint);
    assert_eq!(lift_category(Category::Meter, None), NodeCategory::Meter);
    assert_eq!(
        lift_category(Category::Inverter, Some("battery")),
        NodeCategory::BatteryInverter
    );
    assert_eq!(lift_category(Category::Inverter, Some("solar")), NodeCategory::PvInverter);
    assert_eq!(lift_category(Category::Inverter, Some("pv")), NodeCategory::PvInverter);
    assert_eq!(
        lift_category(Category::Inverter, Some("hybrid")),
        NodeCategory::HybridInverter
    );
    assert_eq!(
        lift_category(Category::Inverter, None),
        NodeCategory::UnspecifiedInverter
    );
    assert_eq!(
        lift_category(Category::Battery, Some("li-ion")),
        NodeCategory::LiIonBattery
    );
    assert_eq!(lift_category(Category::Battery, Some("liion")), NodeCategory::LiIonBattery);
    assert_eq!(lift_category(Category::Battery, None), NodeCategory::UnspecifiedBattery);
    assert_eq!(lift_category(Category::EvCharger, Some("ac")), NodeCategory::AcEvCharger);
    assert_eq!(lift_category(Category::EvCharger, Some("dc")), NodeCategory::DcEvCharger);
    assert_eq!(lift_category(Category::Chp, None), NodeCategory::Chp);
}

#[test]
fn minimal_topology_validates_and_emits_formula() {
    let nodes = vec![
        node(1, NodeCategory::GridConnectionPoint),
        node(2, NodeCategory::Meter),
        node(3, NodeCategory::BatteryInverter),
        node(4, NodeCategory::UnspecifiedBattery),
    ];
    let edges = vec![edge(1, 2), edge(2, 3), edge(3, 4)];
    let graph = build_from(nodes, edges).expect("valid topology should accept");
    let text = formula(&graph, "battery_pool_power").expect("battery formula should resolve");
    assert!(
        text.contains("#3"),
        "expected battery formula to reference #3, got {text}"
    );
}

#[test]
fn battery_formula_prefers_fronting_meter() {
    let nodes = vec![
        node(1, NodeCategory::GridConnectionPoint),
        node(2, NodeCategory::Meter), // main meter
        node(3, NodeCategory::Meter), // battery-fronting meter
        node(4, NodeCategory::BatteryInverter),
        node(5, NodeCategory::UnspecifiedBattery),
    ];
    let edges = vec![edge(1, 2), edge(2, 3), edge(3, 4), edge(4, 5)];
    let graph = build_from(nodes, edges).expect("valid topology should accept");
    let text = formula(&graph, "battery_pool_power").expect("battery formula");
    assert!(
        text.contains("#3"),
        "expected formula to use the fronting meter (#3), got {text}"
    );
}

#[test]
fn missing_grid_fails_validation() {
    let nodes = vec![node(2, NodeCategory::Meter)];
    let err = build_from(nodes, vec![]).err().expect("no grid should not validate");
    assert!(!err.is_empty());
}

#[test]
fn disconnected_branch_fails_validation() {
    let nodes = vec![
        node(1, NodeCategory::GridConnectionPoint),
        node(2, NodeCategory::Meter),
        node(3, NodeCategory::Meter),
        node(4, NodeCategory::BatteryInverter),
        node(5, NodeCategory::UnspecifiedBattery),
    ];
    // 1 -> 2 is one branch; 3 -> 4 -> 5 has no link to the grid.
    let edges = vec![edge(1, 2), edge(3, 4), edge(4, 5)];
    let err = build_from(nodes, edges).err().expect("disconnected branch");
    assert!(!err.is_empty());
}

#[test]
fn a_site_is_judged_by_its_visible_graph() {
    let mut site = MicrogridSite::new();
    site.register(component(1, Category::Grid, None, false));
    site.register(component(2, Category::Meter, None, false));
    site.register(component(3, Category::Inverter, Some("solar"), false));
    site.register(component(9, Category::Meter, None, true));
    site.connect(1, 2);
    site.connect(2, 3);
    site.connect(2, 9);
    let (nodes, edges) = snapshot(&site);
    let ids: Vec<u64> = nodes.iter().map(|n| n.id).collect();
    assert_eq!(ids, vec![1, 2, 3]);
    assert_eq!(edges.len(), 2);
    assert_eq!((edges[1].source, edges[1].destination), (2, 3));
    let graph = build(&site).expect("a grid with one branch is valid");
    assert!(formula(&graph, "grid_power").unwrap().contains("#2"));
    assert!(formula(&graph, "pv_power").unwrap().contains("#3"));
    assert!(formula(&graph, "consumer_power").is_some());
    assert!(formula(&graph, "producer_power").unwrap().contains("#3"));
    site.register(component(7, Category::Grid, None, false));
    assert!(build(&site).is_err());
}
