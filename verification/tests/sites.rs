use std::collections::BTreeMap;
use switchyard::bounds::VecBounds;
use switchyard::component::{Category, Telemetry};
use switchyard::csv::{bounds_row, csv_quote, setpoint_row, telemetry_row, CsvFile};
use switchyard::events::SiteEvent;
use switchyard::history::{ComponentHistory, Metric};
use switchyard::registry::{Component, HISTORY_CAPACITY};
use switchyard::runtime::{CommandMode, Health, TelemetryMode};
use switchyard::sampling::Snapshot;
use switchyard::scalar::Scalar;
use switchyard::setpoints::{SetpointEvent, SetpointKind, SetpointOutcome};
use switchyard::site::{tick_gap, IdAllocator, MicrogridSite};
use switchyard::time::{Moment, Span};
use switchyard::timeouts::SetpointAxis;

const FIRST_AUTO_ID: u64 = 1000;

fn s(v: f32) -> Scalar {
    Scalar::from_bits(v.to_bits())
}

fn f(v: Scalar) -> f32 {
    f32::from_bits(v.bits)
}

fn plus(a: Scalar, b: Scalar) -> Scalar {
    s(f(a) + f(b))
}

fn show(v: Scalar) -> String {
    format!("{}", f(v))
}

fn t(secs: i64) -> Moment {
    Moment::from_secs(secs)
}

fn of(id: u64, category: Category, name: &str, hidden: bool) -> Component {
    Component {
        id,
        category,
        name: name.to_string(),
        subtype: None,
        hidden,
    }
}

fn stub(id: u64) -> Component {
    of(id, Category::Meter, &format!("stub-{id}"), false)
}

fn accepted(ts: Moment, value: f32) -> SetpointEvent {
    SetpointEvent {
        ts,
        kind: SetpointKind::ActivePower,
        value: s(value),
        ttl_s: Some(60),
        outcome: SetpointOutcome::Accepted {
            effective_value: Some(s(value)),
        },
    }
}

fn snap(telemetry: Telemetry) -> Snapshot {
    Snapshot {
        telemetry,
        bounds: None,
    }
}

#[test]
fn set_health_couples_command_mode() {
    let mut w = MicrogridSite::new();
    // Erroring a component makes it unreachable for commands too.
    w.set_health(5, Health::Error);
    assert_eq!(w.runtime_of(5).health, Health::Error);
    assert_eq!(w.runtime_of(5).command, CommandMode::Error);
    // Clearing the error restores normal command handling.
    w.set_health(5, Health::Healthy);
    assert_eq!(w.runtime_of(5).command, CommandMode::Normal);
    // Standby refuses via the health check but leaves command mode alone.
    w.set_command_mode(5, CommandMode::Timeout);
    w.set_health(5, Health::Standby);
    assert_eq!(w.runtime_of(5).command, CommandMode::Timeout);
}

#[test]
fn mod_shared_child_under_two_parents() {
    let mut w = MicrogridSite::new();
    w.connect(2, 100);
    w.connect(3, 100);
    let conns = w.connections();
    assert_eq!(conns.len(), 2);
    assert!(conns.contains(&(2, 100)));
    assert!(conns.contains(&(3, 100)));
    // No component is registered under 100, so there are no bounds to add.
    assert!(w.aggregate_child_bounds(2, &BTreeMap::new(), plus).is_none());
    assert!(w.aggregate_child_bounds(3, &BTreeMap::new(), plus).is_none());
}

#[test]
fn children_of_returns_every_edge_from_parent() {
    let mut w = MicrogridSite::new();
    w.connect(2, 100);
    w.connect(2, 101);
    assert_eq!(w.children_of(2), vec![100, 101]);
    w.disconnect(2, 100);
    assert_eq!(w.children_of(2), vec![101]);
}

#[test]
fn mod_parent_count_reports_edge_count() {
    let mut w = MicrogridSite::new();
    assert_eq!(w.parent_count(100), 0); // unconnected
    w.connect(2, 100);
    assert_eq!(w.parent_count(100), 1);
    w.connect(3, 100);
    assert_eq!(w.parent_count(100), 2);
    // An unrelated child is unaffected.
    assert_eq!(w.parent_count(101), 0);
}

#[test]
fn mod_bump_version_broadcasts_event() {
    let mut w = MicrogridSite::new();
    assert_eq!(w.version(), 0);
    let (v, event) = w.bump_version();
    assert_eq!(v, 1);
    assert_eq!(w.version(), 1);
    match event {
        SiteEvent::TopologyChanged { version } => assert_eq!(version, 1),
        other => panic!("unexpected event: {other:?}"),
    }
}

#[test]
fn mod_remove_component_drops_registry_and_edges() {
    let mut w = MicrogridSite::new();
    w.register(stub(1));
    w.register(stub(2));
    w.register(stub(3));
    w.connect(1, 2);
    w.connect(2, 3);
    w.connect(1, 3);

    assert!(w.remove_component(2));
    assert!(w.get(2).is_none());
    assert!(w.get(1).is_some());
    // Both edges touching 2 went away; the direct edge stays.
    assert_eq!(w.connections(), vec![(1, 3)]);
    // Removing a missing id does nothing.
    assert!(!w.remove_component(99));
}

#[test]
fn mod_disconnect_drops_one_edge_keeps_endpoints() {
    let mut w = MicrogridSite::new();
    w.register(stub(1));
    w.register(stub(2));
    w.connect(1, 2);
    w.connect(1, 2); // duplicate
    assert!(w.disconnect(1, 2));
    // Both copies are gone.
    assert!(w.connections().is_empty());
    assert!(w.get(1).is_some());
    assert!(w.get(2).is_some());
    assert!(!w.disconnect(1, 2));
}

#[test]
fn mod_rename_overrides_display_name_only() {
    let mut w = MicrogridSite::new();
    w.register(stub(7));
    assert_eq!(w.display_name(7).as_deref(), Some("stub-7"));
    w.rename(7, "frontside-meter".into());
    assert_eq!(w.display_name(7).as_deref(), Some("frontside-meter"));
    // The component's own name is untouched.
    assert_eq!(w.get(7).unwrap().name, "stub-7");
    assert_eq!(w.display_name(8), None);
}

#[test]
fn mod_reset_clears_history() {
    let mut w = MicrogridSite::new();
    w.registry.histories.insert(42, ComponentHistory::new(HISTORY_CAPACITY));
    w.reset();
    assert!(w.registry.histories.is_empty());
}

#[test]
fn reset_does_not_rewind_a_shared_id_allocator() {
    let mut alloc = IdAllocator::new();
    let site_a = MicrogridSite::new();
    let mut site_b = MicrogridSite::new();
    assert_eq!(site_a.next_id(&mut alloc), FIRST_AUTO_ID);
    assert_eq!(site_a.next_id(&mut alloc), FIRST_AUTO_ID + 1);
    // Resetting one site leaves the shared counter where the other left it.
    site_b.reset();
    assert_eq!(
        site_a.next_id(&mut alloc),
        FIRST_AUTO_ID + 2,
        "a per-site reset rewound the shared id allocator"
    );
}

#[test]
fn reset_clears_scenario_and_main_meter() {
    let mut w = MicrogridSite::new();
    w.register(stub(1));
    w.set_main_meter(1).unwrap();
    w.log_setpoint(1, accepted(t(1_000), 1234.0));
    w.scenario_start("smoke".into(), t(1_000));
    w.scenario_record("k".into(), "v".into(), t(1_001));

    w.reset();

    assert!(w.registry.setpoint_logs.is_empty(), "setpoint logs must clear");
    assert!(w.registry.scenario.started_at.is_none(), "scenario journal must reset");
    assert_eq!(w.registry.scenario.event_count(), 0);
    assert!(w.main_meter_id().is_none(), "the main meter must clear");
}

#[test]
fn history_history_snapshot_populates_rings() {
    let mut w = MicrogridSite::new();
    w.register(of(7, Category::Battery, "fixed", false));
    let pass = || {
        vec![snap(Telemetry {
            active_power_w: Some(s(2500.0)),
            soc_pct: Some(s(72.5)),
            ..Default::default()
        })]
    };
    w.record_history_snapshot(t(1_000), &pass());
    w.record_history_snapshot(t(1_001), &pass());

    let metrics = w.history_metrics(7);
    assert!(metrics.contains(&Metric::ActivePowerW));
    assert!(metrics.contains(&Metric::SocPct));

    let p = w.history_window(7, Metric::ActivePowerW, t(0)).unwrap();
    assert_eq!(p.len(), 2);
    assert_eq!(f(p[0].value), 2500.0);

    // A windowed read drops what is older.
    let recent = w.history_window(7, Metric::ActivePowerW, t(1_001)).unwrap();
    assert_eq!(recent.len(), 1);
}

#[test]
fn history_record_history_snapshot_emits_sample_events() {
    let mut w = MicrogridSite::new();
    w.register(of(7, Category::Inverter, "stub", false));
    let out = w.record_history_snapshot(
        t(1_000),
        &vec![snap(Telemetry {
            active_power_w: Some(s(-12345.0)),
            soc_pct: Some(s(60.0)),
            ..Default::default()
        })],
    );
    let mut seen: Vec<&'static str> = Vec::new();
    assert_eq!(out.pass.events.len(), 2);
    for event in out.pass.events {
        match event {
            SiteEvent::Sample { id, metric, ts_ms, .. } => {
                assert_eq!(id, 7);
                assert_eq!(ts_ms, 1_000_000);
                seen.push(metric.as_str());
            }
            other => panic!("unexpected event: {other:?}"),
        }
    }
    assert!(seen.contains(&"active_power_w"));
    assert!(seen.contains(&"soc_pct"));
}

#[test]
fn a_pass_collects_what_the_reporter_integrates() {
    let mut w = MicrogridSite::new();
    w.register(of(3, Category::Battery, "bat", false));
    let mut pv = of(6, Category::Inverter, "pv", false);
    pv.subtype = Some("solar".to_string());
    w.register(pv);
    w.register(stub(2));
    w.set_main_meter(2).unwrap();
    w.scenario_start("s".into(), t(900));
    let out = w.record_history_snapshot(
        t(1_000),
        &vec![
            snap(Telemetry {
                dc_power_w: Some(s(500.0)),
                ..Default::default()
            }),
            snap(Telemetry {
                active_power_w: Some(s(-700.0)),
                ..Default::default()
            }),
            snap(Telemetry {
                active_power_w: Some(s(4500.0)),
                ..Default::default()
            }),
        ],
    );
    assert_eq!(out.pass.battery_samples, vec![(3, s(500.0))]);
    assert_eq!(out.pass.pv_samples, vec![(6, s(-700.0))]);
    assert_eq!(f(w.registry.scenario.peak_main_meter_active_w()), 4500.0);
    // DC power is not charted.
    assert!(w.history_metrics(3).is_empty());
}

#[test]
fn hidden_components_keep_their_edges_apart() {
    let mut w = MicrogridSite::new();
    w.register(stub(1));
    w.register(of(2, Category::Meter, "load", true));
    w.register(stub(3));
    w.connect(1, 2);
    w.connect(1, 3);
    assert_eq!(w.connections(), vec![(1, 3)]);
    assert_eq!(w.hidden_connections(), vec![(1, 2)]);
    assert_eq!(w.children_of(1), vec![2, 3]);
}

#[test]
fn the_main_meter_is_claimed_once() {
    let mut w = MicrogridSite::new();
    assert!(w.set_main_meter(1).is_ok());
    assert!(w.set_main_meter(1).is_ok());
    let refusal = w.set_main_meter(2).unwrap_err();
    assert!(refusal.contains('1') && refusal.contains('2'), "{refusal}");
    assert_eq!(w.main_meter_id(), Some(1));
}

#[test]
fn child_bounds_add_up() {
    let mut w = MicrogridSite::new();
    w.register(stub(1));
    w.register(stub(2));
    w.register(stub(3));
    w.connect(1, 2);
    w.connect(1, 3);
    let envelopes = BTreeMap::from([
        (2, VecBounds::single(s(-10.0), s(10.0))),
        (3, VecBounds::single(s(-5.0), s(7.0))),
    ]);
    let total = w.aggregate_child_bounds(1, &envelopes, plus).unwrap();
    assert_eq!((total.0[0].lower, total.0[0].upper), (Some(s(-15.0)), Some(s(17.0))));
}

#[test]
fn setpoint_events_tell_the_outcome() {
    let mut w = MicrogridSite::new();
    let (event, recorded) = w.log_setpoint(
        4,
        SetpointEvent {
            ts: t(2),
            kind: SetpointKind::ReactivePower,
            value: s(9.0),
            ttl_s: None,
            outcome: SetpointOutcome::Rejected {
                reason: "out of bounds".to_string(),
            },
        },
    );
    assert!(!recorded);
    match event {
        SiteEvent::Setpoint { id, ts_ms, setpoint_kind, value, accepted, reason } => {
            assert_eq!((id, ts_ms, setpoint_kind), (4, 2_000, SetpointKind::ReactivePower));
            assert_eq!((f(value), accepted), (9.0, false));
            assert_eq!(reason.as_deref(), Some("out of bounds"));
        }
        other => panic!("unexpected event: {other:?}"),
    }
    assert_eq!(w.setpoints_window(4, t(0)).len(), 1);
    assert!(w.setpoints_window(5, t(0)).is_empty());
}

#[test]
fn timeouts_drain_per_axis() {
    let mut w = MicrogridSite::new();
    w.add_timeout(7, SetpointAxis::Active, 0, Span { nanos: 10 });
    w.add_timeout(7, SetpointAxis::Reactive, 0, Span { nanos: 20 });
    assert_eq!(w.drain_expired_timeouts(10), vec![(7, SetpointAxis::Active)]);
    assert_eq!(w.drain_expired_timeouts(10), vec![]);
    assert_eq!(w.drain_expired_timeouts(21), vec![(7, SetpointAxis::Reactive)]);
}

#[test]
fn grid_state_follows_the_shared_frequency_once_told() {
    let mut w = MicrogridSite::new();
    assert_eq!(f(w.grid_state(s(49.9)).frequency_hz), 50.0);
    w.set_grid_frequency();
    assert_eq!(f(w.grid_state(s(49.9)).frequency_hz), 49.9);
    assert_eq!(f(w.grid_state(s(49.9)).voltage_per_phase.0), 230.0);
}

#[test]
fn settings_hold() {
    let mut w = MicrogridSite::new();
    assert_eq!(w.physics_tick().nanos, 100_000_000);
    w.set_physics_tick_ms(250);
    assert_eq!(w.physics_tick().nanos, 250_000_000);
    w.set_sample_lag_ms(40);
    assert_eq!(w.sample_lag_ms(), 40);
    let before = w.stream_cancel_epoch();
    w.cancel_all_streams();
    assert_eq!(w.stream_cancel_epoch(), before + 1);
    w.set_telemetry_mode(3, TelemetryMode::Silent);
    assert_eq!(w.runtime_of(3).telemetry, TelemetryMode::Silent);
    assert_eq!(tick_gap(t(10), t(12)).nanos, 2_000_000_000);
    assert_eq!(tick_gap(t(12), t(10)).nanos, 0);
}

#[test]
fn labels_parse_back() {
    for h in [Health::Healthy, Health::Error, Health::Standby] {
        assert_eq!(Health::parse(h.label()), Some(h));
    }
    assert_eq!(Health::parse("sick"), None);
    assert_eq!(CommandMode::parse(CommandMode::Timeout.label()), Some(CommandMode::Timeout));
    assert_eq!(TelemetryMode::parse(TelemetryMode::Silent.label()), Some(TelemetryMode::Silent));
}

#[test]
fn recordings_open_one_sink_per_component() {
    let mut w = MicrogridSite::new();
    w.register(of(3, Category::Battery, "bat", false));
    w.register(stub(2));
    let files = w.scenario_csv_files(&vec![true, false]);
    assert!(files.iter().any(|x| x.name == CsvFile::telemetry(3, Category::Battery).name));
    assert!(files.iter().any(|x| x.name == CsvFile::bounds(3).name));
    assert!(!files.iter().any(|x| x.name == CsvFile::bounds(2).name));
    let opened = w.scenario_open_csv(&vec![true, false]);
    assert_eq!(opened, files.len() as u128);
    let out = w.record_history_snapshot(
        t(5),
        &vec![
            Snapshot {
                telemetry: Telemetry::default(),
                bounds: Some(VecBounds::single(s(0.0), s(1.0))),
            },
            snap(Telemetry::default()),
        ],
    );
    assert_eq!(out.telemetry_rows, vec![0, 1]);
    assert_eq!(out.bounds_rows, vec![0]);
    assert_eq!(w.scenario_close_csv(), opened);
    assert_eq!(w.scenario_close_csv(), 0);
}

#[test]
fn csv_rows_quote_what_needs_quotes() {
    assert_eq!(csv_quote("plain"), "plain");
    assert_eq!(csv_quote("a,b"), "\"a,b\"");
    assert_eq!(csv_quote("say \"hi\""), "\"say \"\"hi\"\"\"");
    let row = setpoint_row(
        &SetpointEvent {
            ts: t(0),
            kind: SetpointKind::ActivePower,
            value: s(1.5),
            ttl_s: Some(60),
            outcome: SetpointOutcome::Rejected {
                reason: "no, never".to_string(),
            },
        },
        &show,
    );
    assert!(row.starts_with("1970-01-01T00:00:00+00:00,"), "{row}");
    assert!(row.contains("1.5") && row.contains("\"no, never\""), "{row}");
    let row = bounds_row(t(0), &VecBounds::single(s(-2.0), s(2.0)), &show);
    assert!(row.contains("-2") && row.contains(",2"), "{row}");
    let row = telemetry_row(
        t(0),
        &Telemetry {
            active_power_w: Some(s(12.25)),
            ..Default::default()
        },
        &show,
    );
    assert!(row.contains("12.25"), "{row}");
    let columns = CsvFile::telemetry(1, Category::Meter).header.split(',').count();
    assert_eq!(row.trim_end().split(',').count(), columns);
}

#[test]
fn config_errors_are_dated() {
    let w = MicrogridSite::new();
    match w.broadcast_config_error("boom".to_string(), t(3)) {
        SiteEvent::ConfigError { ts_ms, message } => {
            assert_eq!((ts_ms, message.as_str()), (3_000, "boom"));
        }
        other => panic!("unexpected event: {other:?}"),
    }
}

#[test]
fn only_a_departure_from_healthy_is_labelled() {
    assert_eq!(Health::Healthy.state_label(), None);
    assert_eq!(Health::Error.state_label(), Some("error"));
    assert_eq!(Health::Standby.state_label(), Some("standby"));
}

#[test]
fn an_aggregated_sample_is_announced_as_it_came() {
    let w = MicrogridSite::new();
    match w.broadcast_microgrid_sample("grid", "active_power", "W", 7, Some(s(4.5))) {
        SiteEvent::MicrogridSample { stream, quantity, unit, ts_ms, value } => {
            assert_eq!((stream, quantity, unit, ts_ms), ("grid", "active_power", "W", 7));
            assert_eq!(value.map(f), Some(4.5));
        }
        other => panic!("unexpected event: {other:?}"),
    }
}
