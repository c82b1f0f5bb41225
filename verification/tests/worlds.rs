use std::collections::BTreeMap;
use switchyard::component::{Category, Telemetry};
use switchyard::events::SiteEvent;
use switchyard::history::{ComponentHistory, Metric};
use switchyard::registry::{Component, HISTORY_CAPACITY};
use switchyard::report::{
    compute_soc_stats, percent_bucket, PerBatteryReport, PerPvReport, SocStats,
};
use switchyard::runtime::{CommandMode, Health};
use switchyard::sampling::Snapshot;
use switchyard::scalar::{Scalar, Wide};
use switchyard::time::Moment;
use switchyard::world::{ScenarioTotals, WindowPeak, World};

fn s(v: f32) -> Scalar {
    Scalar::from_bits(v.to_bits())
}

fn f(v: Scalar) -> f32 {
    f32::from_bits(v.bits)
}

fn d(v: Wide) -> f64 {
    f64::from_bits(v.bits)
}

fn plus(a: Scalar, b: Scalar) -> Scalar {
    s(f(a) + f(b))
}

fn t(secs: i64) -> Moment {
    Moment::from_secs(secs)
}

fn mean(socs: &Vec<Scalar>) -> Wide {
    let sum: f64 = socs.iter().map(|v| f(*v) as f64).sum();
    Wide {
        bits: (sum / socs.len() as f64).to_bits(),
    }
}

fn stats(socs: &[f32]) -> Option<SocStats> {
    compute_soc_stats(&socs.iter().map(|v| s(*v)).collect(), mean)
}

fn of(id: u64, category: Category, name: &str) -> Component {
    Component {
        id,
        category,
        name: name.to_string(),
        subtype: None,
        hidden: false,
    }
}

fn stub(id: u64) -> Component {
    of(id, Category::Meter, &format!("stub-{id}"))
}

fn check_typical() {
    let st = stats(&[20.0, 40.0, 60.0, 80.0]).unwrap();
    assert!((d(st.mean_pct) - 50.0).abs() < 1e-6);
    // The lower of the two in the middle.
    assert!((f(st.median_pct) - 40.0).abs() < 1e-6);
    // All buckets tie; the lowest wins.
    assert_eq!(st.mode_pct, Some(20));
}

fn check_repeated() {
    let st = stats(&[50.0, 50.4, 50.6, 25.0, 80.0]).unwrap();
    assert_eq!(st.mode_pct, Some(50));
}

#[test]
fn world_soc_stats_compute_on_typical_set() {
    check_typical();
}

#[test]
fn scenarios_soc_stats_compute_on_typical_set() {
    check_typical();
}

#[test]
fn world_soc_stats_mode_picks_repeated_bucket() {
    check_repeated();
}

#[test]
fn scenarios_soc_stats_mode_picks_repeated_bucket() {
    check_repeated();
}

#[test]
fn world_soc_stats_empty_returns_none() {
    assert!(stats(&[]).is_none());
}

#[test]
fn scenarios_soc_stats_empty_returns_none() {
    assert!(stats(&[]).is_none());
}

#[test]
fn percents_round_halves_up_and_stay_in_range() {
    for (v, bucket) in [
        (0.0, 0),
        (0.49, 0),
        (0.5, 1),
        (50.5, 51),
        (99.49, 99),
        (99.5, 100),
        (250.0, 100),
        (-3.0, 0),
        (f32::NAN, 0),
        (f32::INFINITY, 100),
    ] {
        assert_eq!(percent_bucket(s(v)), bucket, "{v}");
    }
}

#[test]
fn world_shared_child_under_two_parents() {
    let mut w = World::new();
    w.connect(2, 100);
    w.connect(3, 100);
    let conns = w.connections();
    assert_eq!(conns.len(), 2);
    assert!(conns.contains(&(2, 100)));
    assert!(conns.contains(&(3, 100)));
    assert!(w.aggregate_child_bounds(2, &BTreeMap::new(), plus).is_none());
    assert!(w.aggregate_child_bounds(3, &BTreeMap::new(), plus).is_none());
}

#[test]
fn children_of_unions_connections_and_hidden() {
    let mut w = World::new();
    w.connect(2, 100);
    w.connect(2, 101);
    assert_eq!(w.children_of(2, &vec![]), vec![100, 101]);
    // The extra children extend the result; duplicates collapse.
    assert_eq!(w.children_of(2, &vec![101, 999]), vec![100, 101, 999]);
    w.disconnect(2, 100);
    assert_eq!(w.children_of(2, &vec![999]), vec![101, 999]);
}

#[test]
fn world_parent_count_reports_edge_count() {
    let mut w = World::new();
    assert_eq!(w.parent_count(100), 0); // unconnected
    w.connect(2, 100);
    assert_eq!(w.parent_count(100), 1);
    w.connect(3, 100);
    assert_eq!(w.parent_count(100), 2);
    assert_eq!(w.parent_count(101), 0);
}

fn pass(p: f32, soc: f32) -> Vec<Snapshot> {
    vec![Snapshot {
        telemetry: Telemetry {
            active_power_w: Some(s(p)),
            soc_pct: Some(s(soc)),
            ..Default::default()
        },
        bounds: None,
    }]
}

#[test]
fn world_history_snapshot_populates_rings() {
    let mut w = World::new();
    w.register(of(7, Category::Battery, "fixed"));
    w.record_history_snapshot(t(1_000), &pass(2500.0, 72.5));
    w.record_history_snapshot(t(1_001), &pass(2500.0, 72.5));

    let metrics = w.history_metrics(7);
    assert!(metrics.contains(&Metric::ActivePowerW));
    assert!(metrics.contains(&Metric::SocPct));

    let p = w.history_window(7, Metric::ActivePowerW, t(0)).unwrap();
    assert_eq!(p.len(), 2);
    assert_eq!(f(p[0].value), 2500.0);

    let recent = w.history_window(7, Metric::ActivePowerW, t(1_001)).unwrap();
    assert_eq!(recent.len(), 1);
}

#[test]
fn world_record_history_snapshot_emits_sample_events() {
    let mut w = World::new();
    w.register(of(7, Category::Inverter, "stub"));
    let out = w.record_history_snapshot(t(1_000), &pass(-12345.0, 60.0));
    let mut seen: Vec<&'static str> = Vec::new();
    assert_eq!(out.events.len(), 2);
    for event in out.events {
        match event {
            SiteEvent::Sample { id, metric, ts_ms, .. } => {
                assert_eq!(id, 7);
                assert_eq!(ts_ms, 1_000_000);
                seen.push(metric.as_str());
            }
            other => panic!("unexpected event: {other:?}"),
        }
    }
    assert!(seen.contains(&"active_power_w"));
    assert!(seen.contains(&"soc_pct"));
}

#[test]
fn world_bump_version_broadcasts_event() {
    let mut w = World::new();
    assert_eq!(w.version(), 0);
    let (v, event) = w.bump_version();
    assert_eq!(v, 1);
    assert_eq!(w.version(), 1);
    match event {
        SiteEvent::TopologyChanged { version } => assert_eq!(version, 1),
        other => panic!("unexpected event: {other:?}"),
    }
}

#[test]
fn world_remove_component_drops_registry_and_edges() {
    let mut w = World::new();
    w.register(stub(1));
    w.register(stub(2));
    w.register(stub(3));
    w.connect(1, 2);
    w.connect(2, 3);
    w.connect(1, 3);

    assert!(w.remove_component(2));
    assert!(w.get(2).is_none());
    assert!(w.get(1).is_some());
    assert_eq!(w.connections(), vec![(1, 3)]);
    assert!(!w.remove_component(99));
}

#[test]
fn world_disconnect_drops_one_edge_keeps_endpoints() {
    let mut w = World::new();
    w.register(stub(1));
    w.register(stub(2));
    w.connect(1, 2);
    w.connect(1, 2); // duplicate
    assert!(w.disconnect(1, 2));
    assert!(w.connections().is_empty());
    assert!(w.get(1).is_some());
    assert!(w.get(2).is_some());
    assert!(!w.disconnect(1, 2));
}

#[test]
fn world_rename_overrides_display_name_only() {
    let mut w = World::new();
    w.register(stub(7));
    assert_eq!(w.display_name(7).as_deref(), Some("stub-7"));
    w.rename(7, "frontside-meter".into());
    assert_eq!(w.display_name(7).as_deref(), Some("frontside-meter"));
    assert_eq!(w.get(7).unwrap().name, "stub-7");
}

#[test]
fn world_reset_clears_history() {
    let mut w = World::new();
    w.registry.histories.insert(42, ComponentHistory::new(HISTORY_CAPACITY));
    w.reset();
    assert!(w.registry.histories.is_empty());
}

#[test]
fn a_world_rewinds_its_ids_when_reset() {
    let mut w = World::new();
    assert_eq!(w.next_id(), 1000);
    assert_eq!(w.next_id(), 1001);
    w.reset();
    assert_eq!(w.next_id(), 1000);
}

#[test]
fn a_world_keeps_command_modes_apart_from_health() {
    let mut w = World::new();
    w.set_health(5, Health::Error);
    assert_eq!(w.runtime_of(5).health, Health::Error);
    assert_eq!(w.runtime_of(5).command, CommandMode::Normal);
}

#[test]
fn the_latest_registration_answers() {
    let mut w = World::new();
    w.register(of(1, Category::Meter, "old"));
    w.register(of(1, Category::Battery, "new"));
    assert_eq!(w.get(1).unwrap().name, "new");
    assert_eq!(w.components().len(), 2);
}

#[test]
fn pre_tick_hook_runs_before_component_tick() {
    let mut w = World::new();
    w.register(of(1, Category::Meter, "order"));
    let hook = |mut order: Vec<&'static str>| {
        order.push("pre_tick");
        order
    };
    let tick = |mut order: Vec<&'static str>, _: &Component| {
        order.push("tick");
        order
    };
    assert_eq!(w.tick_once(Vec::new(), Some(hook), tick), vec!["pre_tick", "tick"]);
}

#[test]
fn components_tick_in_registration_order() {
    let mut w = World::new();
    for id in [3, 1, 2] {
        w.register(stub(id));
    }
    let tick = |mut seen: Vec<u64>, c: &Component| {
        seen.push(c.id);
        seen
    };
    let none: Option<fn(Vec<u64>) -> Vec<u64>> = None;
    assert_eq!(w.tick_once(Vec::new(), none, tick), vec![3, 1, 2]);
}

#[test]
fn world_report_lists_window_peaks() {
    let w = |v: f64| Wide { bits: v.to_bits() };
    let mut world = World::new();
    world.scenario_start("peaks".into(), t(0));
    let totals = ScenarioTotals {
        per_battery: vec![
            PerBatteryReport {
                id: 4,
                charge_wh: w(1.0),
                discharge_wh: w(0.5),
            },
            PerBatteryReport {
                id: 2,
                charge_wh: w(2.0),
                discharge_wh: w(0.25),
            },
        ],
        per_pv: vec![PerPvReport {
            id: 6,
            produced_wh: w(3.0),
        }],
        window_peaks: vec![
            WindowPeak {
                start_secs: 900,
                peak_w: w(30.0),
            },
            WindowPeak {
                start_secs: i64::MAX,
                peak_w: w(31.0),
            },
        ],
    };
    let sum = |a: Wide, b: Wide| w(d(a) + d(b));
    let r = world.scenario_report(&totals, &vec![], t(1000), sum, mean);
    assert_eq!(d(r.total_battery_charged_wh), 3.0);
    assert_eq!(d(r.total_battery_discharged_wh), 0.75);
    assert_eq!(d(r.total_pv_produced_wh), 3.0);
    assert_eq!(r.per_battery.iter().map(|b| b.id).collect::<Vec<_>>(), vec![4, 2]);
    assert_eq!(r.main_meter_window_peaks.len(), 2);
    assert_eq!(r.main_meter_window_peaks[0].window_start, t(900));
    assert_eq!(d(r.main_meter_window_peaks[0].peak_w), 30.0);
    assert_eq!(r.main_meter_window_peaks[1].window_start, t(1000));
    assert_eq!(r.scenario_elapsed.nanos, 1_000_000_000_000);
    assert!(r.soc_stats.is_none());
    assert!(r.main_meter_id.is_none());
}
