use std::collections::BTreeMap;
use switchyard::battery::{Battery, BatteryConfig};
use switchyard::bounds::{Bounds, VecBounds};
use switchyard::component::{Category, Chp, Grid, SetpointError};
use switchyard::ev_charger::{EvCharger, EvChargerConfig};
use switchyard::inverter::{
    BatteryInverter, BatteryInverterConfig, SolarInverter, SolarInverterConfig,
};
use switchyard::meter::Meter;
use switchyard::network::flow_at;
use switchyard::registry::Component;
use switchyard::scalar::Scalar;
use switchyard::site::GridState;
use switchyard::time::{Moment, Span};
use switchyard::timeouts::SetpointAxis;
use switchyard::world::World;

fn s(v: f32) -> Scalar {
    Scalar::from_bits(v.to_bits())
}

fn f(v: Scalar) -> f32 {
    f32::from_bits(v.bits)
}

fn plus(a: Scalar, b: Scalar) -> Scalar {
    s(f(a) + f(b))
}

fn minus(a: Scalar, b: Scalar) -> Scalar {
    s(f(a) - f(b))
}

fn times(a: Scalar, b: Scalar) -> Scalar {
    s(f(a) * f(b))
}

fn over(a: Scalar, b: Scalar) -> Scalar {
    s(f(a) / f(b))
}

fn spread(a: Scalar, n: usize) -> Scalar {
    s(f(a) / n as f32)
}

fn headroom(va: Scalar, p: Scalar) -> Scalar {
    s((f(va) * f(va) - f(p) * f(p)).max(0.0).sqrt())
}

fn seconds(dt: Span) -> f32 {
    dt.nanos as f32 / 1e9
}

fn travel(rate: Scalar, dt: Span) -> Scalar {
    s(f(rate) * seconds(dt))
}

fn nearer(below: Scalar, v: Scalar, above: Scalar) -> bool {
    (f(v) - f(below)).abs() <= (f(above) - f(v)).abs()
}

fn taper(rated: Scalar, start: Scalar, stop: Scalar, soc: Scalar) -> Scalar {
    let share = (f(stop) - f(soc)) / (f(stop) - f(start));
    s(f(rated) * share.clamp(0.0, 1.0))
}

fn integrate(wh: Scalar, w: Scalar, dt: Span) -> Scalar {
    s(f(wh) + f(w) * seconds(dt) / 3600.0)
}

fn charge(initial: Scalar, wh: Scalar, capacity: Scalar) -> Scalar {
    s(f(initial) + f(wh) / f(capacity) * 100.0)
}

fn ev_charge(soc: Scalar, p: Scalar, dt: Span, capacity: Scalar) -> Scalar {
    s(f(soc) + f(p) * seconds(dt) / 3600.0 / f(capacity) * 100.0)
}

fn apparent(p: Scalar, q: Scalar) -> Scalar {
    s((f(p) * f(p) + f(q) * f(q)).sqrt())
}

fn sunlit(rated: Scalar, pct: Scalar) -> Scalar {
    s(f(rated) * f(pct) / 100.0)
}

fn thirds(total: Scalar, _: (Scalar, Scalar, Scalar)) -> (Scalar, Scalar, Scalar) {
    let part = s(f(total) / 3.0);
    (part, part, part)
}

fn current(
    p: (Scalar, Scalar, Scalar),
    q: (Scalar, Scalar, Scalar),
    v: (Scalar, Scalar, Scalar),
) -> (Scalar, Scalar, Scalar) {
    (
        over(apparent(p.0, q.0), v.0),
        over(apparent(p.1, q.1), v.1),
        over(apparent(p.2, q.2), v.2),
    )
}

fn t(secs: i64) -> Moment {
    Moment::from_secs(secs)
}

fn charger() -> EvCharger {
    EvCharger::new(
        300,
        Span::from_secs(1),
        EvChargerConfig {
            rated_lower_w: s(0.0),
            rated_upper_w: s(22_000.0),
            soc_protect_margin_pct: s(0.0),
            command_delay: Span::from_secs(0),
            ramp_rate_w_per_s: s(f32::INFINITY),
            ..Default::default()
        },
        &minus,
        &plus,
        &taper,
    )
}

fn tick_ev(ev: &mut EvCharger, now: Moment, dt: Span) {
    ev.tick(now, dt, &ev_charge, &travel, &minus, &plus, &taper);
}

fn narrowed() -> VecBounds {
    VecBounds(vec![Bounds {
        lower: Some(s(0.0)),
        upper: Some(s(5_000.0)),
    }])
}

#[test]
fn augment_active_bounds_narrows_validation_and_telemetry() {
    let now = t(1_000);
    let mut ev = charger();
    ev.augment_active_bounds(now, narrowed(), Span::from_secs(60));

    let eff = ev.effective_active_bounds();
    assert_eq!(eff.0.len(), 1);
    assert_eq!(eff.0[0].lower, Some(s(0.0)));
    assert_eq!(eff.0[0].upper, Some(s(5_000.0)));

    // A setpoint inside the augmented envelope still works.
    assert!(ev.set_active_setpoint(s(3_000.0), now).is_ok());
    tick_ev(&mut ev, now, Span::from_millis(100));
    assert!((f(ev.aggregate_power_w()) - 3_000.0).abs() < 1.0);
    let reported = ev.telemetry(&GridState::default());
    assert_eq!(reported.active_power_bounds.unwrap().0[0].upper, Some(s(5_000.0)));

    // One outside it is refused even though it is still inside the rating.
    assert!(matches!(
        ev.set_active_setpoint(s(10_000.0), now),
        Err(SetpointError::OutOfBounds { .. })
    ));
}

#[test]
fn augmentation_expires_and_rated_returns() {
    let t0 = t(1_000);
    let mut ev = charger();
    ev.augment_active_bounds(t0, narrowed(), Span::from_millis(50));

    let eff = ev.effective_active_bounds();
    assert_eq!(eff.0[0].upper, Some(s(5_000.0)));

    // A tick past the lifetime reaps it.
    let later = Moment {
        nanos: t0.nanos + 100_000_000,
    };
    tick_ev(&mut ev, later, Span::from_millis(50));

    let eff = ev.effective_active_bounds();
    assert_eq!(eff.0[0].upper, Some(s(22_000.0)));
}

#[test]
fn a_full_vehicle_stays_full() {
    let now = t(1_000);
    let mut ev = charger();
    ev.state.soc_pct = s(99.99);
    assert!(ev.set_active_setpoint(s(22_000.0), now).is_ok());
    tick_ev(&mut ev, now, Span::from_secs(3600));
    assert_eq!(f(ev.state.soc_pct), 100.0);
    ev.reset_setpoint();
    tick_ev(&mut ev, now, Span::from_secs(1));
    assert_eq!(f(ev.aggregate_power_w()), 0.0);
    assert_eq!((f(ev.rated_active_bounds().0), f(ev.rated_active_bounds().1)), (0.0, 22_000.0));
}

fn battery(id: u64, limit: f32) -> Battery {
    Battery::new(
        id,
        Span::from_secs(1),
        BatteryConfig {
            capacity_wh: s(100_000.0),
            rated_lower_w: s(-limit),
            rated_upper_w: s(limit),
            soc_protect_margin_pct: s(0.0),
            ..Default::default()
        },
        &minus,
        &plus,
        &taper,
    )
}

fn tick_battery(b: &mut Battery, dt: Span) {
    b.tick(dt, &integrate, &charge, &minus, &plus, &taper);
}

fn inverter(successors: Vec<u64>) -> BatteryInverter {
    BatteryInverter::new(
        4,
        Span::from_secs(1),
        BatteryInverterConfig {
            rated_lower_w: s(-10_000.0),
            rated_upper_w: s(10_000.0),
            ..Default::default()
        },
        successors,
    )
}

fn tick_inverter(
    inv: &mut BatteryInverter,
    batteries: &mut BTreeMap<u64, Battery>,
    flows: &BTreeMap<u64, (Scalar, Scalar)>,
    now: Moment,
) {
    let dt = Span::from_millis(100);
    inv.tick(
        batteries, flows, now, dt, &nearer, &times, &headroom, &travel, &minus, &plus, &spread,
    );
}

#[test]
fn a_battery_integrates_its_power() {
    let mut b = battery(3, 10_000.0);
    b.set_dc_power(s(3600.0));
    tick_battery(&mut b, Span::from_secs(10));
    assert!((f(b.state.energy_wh) - 10.0).abs() < 1e-3);
    assert!((f(b.state.soc_pct) - 50.01).abs() < 1e-3);
    let reported = b.telemetry(&apparent, &over);
    assert_eq!(reported.category, Some(Category::Battery));
    assert_eq!(reported.component_state, Some("charging"));
    assert_eq!(reported.relay_state, Some("relay-closed"));
    assert_eq!(f(reported.dc_power_w.unwrap()), 3600.0);
    assert_eq!(b.name, "bat-3");
}

#[test]
fn a_battery_clips_what_is_pushed() {
    let mut b = battery(3, 1_000.0);
    b.set_dc_active_reactive(s(5_000.0), s(30.0));
    assert_eq!((f(b.power_w()), f(b.aggregate_reactive_var())), (1_000.0, 30.0));
    b.set_dc_active_reactive(s(-5_000.0), s(0.0));
    assert_eq!(f(b.aggregate_power_w()), -1_000.0);
    assert_eq!(b.telemetry(&apparent, &over).component_state, Some("discharging"));
    let (lower, upper) = b.rated_active_bounds();
    assert_eq!((f(lower), f(upper)), (-1_000.0, 1_000.0));
}

#[test]
fn a_derated_battery_pulls_its_power_back() {
    let mut b = battery(3, 1_000.0);
    b.cfg.soc_protect_margin_pct = s(10.0);
    b.cfg.initial_soc_pct = s(85.0);
    b.set_dc_power(s(1_000.0));
    tick_battery(&mut b, Span::from_secs(0));
    let limit = f(b.state.effective_upper_w);
    assert!((limit - 500.0).abs() < 1.0, "got {limit}");
    assert_eq!(f(b.power_w()), limit);
    assert_eq!(b.effective_active_bounds().0[0].upper, Some(b.state.effective_upper_w));
}

#[test]
fn an_inverter_reports_what_its_batteries_take() {
    let now = t(1_000);
    let mut inv = inverter(vec![3, 5]);
    let mut batteries = BTreeMap::from([(3, battery(3, 10_000.0)), (5, battery(5, 1_000.0))]);
    let none = BTreeMap::new();
    assert!(inv.set_active_setpoint(s(6_000.0), now).is_ok());
    tick_inverter(&mut inv, &mut batteries, &none, now);
    // Equal shares of 3 kW; the small battery takes only 1 kW of its own.
    assert_eq!(f(batteries[&3].power_w()), 3_000.0);
    assert_eq!(f(batteries[&5].power_w()), 1_000.0);
    assert_eq!(f(inv.aggregate_power_w()), 4_000.0);
    let reported = inv.telemetry(&GridState::default(), &thirds, &current, &times, &headroom);
    assert_eq!(reported.active_power_w.map(f), Some(4_000.0));
    assert_eq!(reported.component_state, Some("charging"));
    assert_eq!(reported.category, Some(Category::Inverter));
}

#[test]
fn a_successor_that_is_no_battery_is_only_read() {
    let now = t(1_000);
    let mut inv = inverter(vec![3, 8, 9]);
    let mut batteries = BTreeMap::from([(3, battery(3, 10_000.0))]);
    let flows = BTreeMap::from([(8, (s(-250.0), s(40.0)))]);
    assert!(inv.set_active_setpoint(s(3_000.0), now).is_ok());
    tick_inverter(&mut inv, &mut batteries, &flows, now);
    assert_eq!(f(inv.aggregate_power_w()), 750.0);
    assert_eq!(f(inv.aggregate_reactive_var()), 40.0);
}

#[test]
fn an_inverter_without_batteries_reports_its_command() {
    let now = t(1_000);
    let mut inv = inverter(vec![]);
    let mut batteries = BTreeMap::new();
    let none = BTreeMap::new();
    assert!(inv.set_active_setpoint(s(-2_000.0), now).is_ok());
    tick_inverter(&mut inv, &mut batteries, &none, now);
    assert_eq!(f(inv.aggregate_power_w()), -2_000.0);
    match inv.set_active_setpoint(s(10_001.0), now) {
        Err(SetpointError::OutOfBounds { value, .. }) => assert_eq!(f(value), 10_001.0),
        other => panic!("expected a refusal, got {other:?}"),
    }
    assert!(inv.set_reactive_setpoint(s(100.0), now, &times, &headroom).is_ok());
    assert!(inv.set_reactive_setpoint(s(1_000.0), now, &times, &headroom).is_err());
    let (lower, upper) = inv.reactive_bounds(&times, &headroom);
    assert!((f(lower) + 700.0).abs() < 1e-3 && (f(upper) - 700.0).abs() < 1e-3);
    inv.set_reactive_pf_limit(Some(s(0.5)));
    let (_, upper) = inv.reactive_bounds(&times, &headroom);
    assert_eq!(f(upper), 1_000.0);
    inv.reset_setpoint();
    assert_eq!(f(inv.aggregate_power_w()), 0.0);
    assert_eq!(inv.name, "inv-bat-4");
}

#[test]
fn commands_are_held_to_a_narrowed_envelope() {
    let now = t(1_000);
    let mut inv = inverter(vec![]);
    let mut batteries = BTreeMap::new();
    let none = BTreeMap::new();
    assert!(inv.set_active_setpoint(s(9_000.0), now).is_ok());
    inv.augment_active_bounds(now, narrowed(), Span::from_secs(60));
    tick_inverter(&mut inv, &mut batteries, &none, now);
    assert_eq!(f(inv.aggregate_power_w()), 5_000.0);
    assert_eq!(inv.effective_active_bounds().0[0].upper, Some(s(5_000.0)));
    let (lower, upper) = inv.rated_active_bounds();
    assert_eq!((f(lower), f(upper)), (-10_000.0, 10_000.0));
}

#[test]
fn a_solar_inverter_cannot_outshine_the_sun() {
    let now = t(1_000);
    let cfg = SolarInverterConfig {
        sunlight_pct: s(50.0),
        ..Default::default()
    };
    let mut pv = SolarInverter::new(6, Span::from_secs(1), cfg, &sunlit);
    assert_eq!(f(pv.aggregate_power_w()), -15_000.0);
    let dt = Span::from_secs(1);
    assert!(pv.set_active_setpoint(s(-20_000.0), now).is_ok());
    pv.tick(now, dt, &sunlit, &times, &headroom, &travel, &minus, &plus);
    assert_eq!(f(pv.aggregate_power_w()), -15_000.0);
    assert!(pv.set_active_setpoint(s(-5_000.0), now).is_ok());
    pv.tick(now, dt, &sunlit, &times, &headroom, &travel, &minus, &plus);
    assert_eq!(f(pv.aggregate_power_w()), -5_000.0);
    assert!(pv.set_active_setpoint(s(1.0), now).is_err());
    let reported = pv.telemetry(&GridState::default(), &thirds, &current, &times, &headroom);
    assert_eq!(reported.active_power_w.map(f), Some(-5_000.0));
    assert!(reported.component_state.is_none());
    pv.reset_setpoint(&sunlit);
    assert_eq!(f(pv.aggregate_power_w()), -15_000.0);
    assert_eq!(pv.name, "inv-pv-6");
}

#[test]
fn markers_report_only_who_they_are() {
    let chp = Chp::new(12);
    assert_eq!((chp.name.as_str(), chp.telemetry().category), ("chp-12", Some(Category::Chp)));
    let grid = Grid::new(1, 63, Some((s(-1.0), s(1.0))), s(0.0));
    assert_eq!((grid.name.as_str(), grid.rated_fuse_current), ("grid-1", 63));
    assert_eq!(grid.telemetry().category, Some(Category::Grid));
    assert!(grid.telemetry().active_power_w.is_none());
}

fn component(id: u64, category: Category) -> Component {
    Component {
        id,
        category,
        name: format!("c-{id}"),
        subtype: None,
        hidden: false,
    }
}

fn meter(id: u64, successors: Vec<u64>) -> Meter {
    Meter::new(id, Span::from_secs(1), successors, None, s(0.0), false)
}

fn power(
    w: &World,
    meters: &BTreeMap<u64, Meter>,
    leaves: &BTreeMap<u64, (Scalar, Scalar)>,
    id: u64,
) -> f32 {
    f(flow_at(meters, leaves, &w.registry, &spread, &plus, id, 8).unwrap().0)
}

#[test]
fn parallel_paths_share_one_inverter() {
    let mut w = World::new();
    w.register(component(100, Category::Inverter));
    let leaves = BTreeMap::from([(100, (s(10_000.0), s(0.0)))]);
    for id in [10, 11, 2] {
        w.register(component(id, Category::Meter));
    }
    let meters = BTreeMap::from([
        (10, meter(10, vec![100])),
        (11, meter(11, vec![100])),
        (2, meter(2, vec![10, 11])),
    ]);
    w.connect(10, 100);
    w.connect(11, 100);
    w.connect(2, 10);
    w.connect(2, 11);

    assert!((power(&w, &meters, &leaves, 10) - 5_000.0).abs() < 1e-3);
    assert!((power(&w, &meters, &leaves, 11) - 5_000.0).abs() < 1e-3);
    assert!((power(&w, &meters, &leaves, 2) - 10_000.0).abs() < 1e-3);
}

#[test]
fn world_connect_after_make_aggregates() {
    let mut w = World::new();
    w.register(component(100, Category::Inverter));
    let leaves = BTreeMap::from([(100, (s(2_000.0), s(0.0)))]);
    w.register(component(2, Category::Meter));
    let meters = BTreeMap::from([(2, meter(2, vec![]))]);

    // Before the edge there is nothing under the meter.
    assert_eq!(power(&w, &meters, &leaves, 2), 0.0);

    w.connect(2, 100);
    assert!((power(&w, &meters, &leaves, 2) - 2_000.0).abs() < 1e-3);
}

#[test]
fn hidden_child_with_no_edges_contributes_full() {
    let mut w = World::new();
    w.register(component(9000, Category::Inverter));
    let leaves = BTreeMap::from([(9000, (s(1500.0), s(0.0)))]);
    assert_eq!(w.parent_count(9000), 0);

    w.register(component(2, Category::Meter));
    let meters = BTreeMap::from([(2, meter(2, vec![9000]))]);
    assert!((power(&w, &meters, &leaves, 2) - 1500.0).abs() < 1e-3);
}

#[test]
fn a_fixed_power_hides_the_children() {
    let mut w = World::new();
    w.register(component(100, Category::Inverter));
    w.register(component(2, Category::Meter));
    let leaves = BTreeMap::from([(100, (s(2_000.0), s(300.0)))]);
    let mut m = meter(2, vec![100]);
    m.set_fixed_power(s(77.0));
    let meters = BTreeMap::from([(2, m)]);
    let (p, q) = flow_at(&meters, &leaves, &w.registry, &spread, &plus, 2, 1).unwrap();
    assert_eq!((f(p), f(q)), (77.0, 0.0));
    let reported = meters[&2].telemetry(p, q, &GridState::default(), &thirds, &current);
    assert_eq!(reported.active_power_w.map(f), Some(77.0));
    assert_eq!(reported.component_state, Some("ready"));
    assert_eq!(meters[&2].name, "meter-2");
}

#[test]
fn meters_in_a_ring_have_no_flow() {
    let mut w = World::new();
    w.register(component(1, Category::Meter));
    w.register(component(2, Category::Meter));
    let meters = BTreeMap::from([(1, meter(1, vec![2])), (2, meter(2, vec![1]))]);
    let leaves = BTreeMap::new();
    assert!(flow_at(&meters, &leaves, &w.registry, &spread, &plus, 1, 8).is_none());
}

#[test]
fn an_expired_axis_leaves_the_other_running() {
    let now = t(1_000);
    let dt = Span::from_secs(1);
    let cfg = BatteryInverterConfig {
        reactive_command_delay: Span::from_secs(0),
        reactive_ramp_rate_var_per_s: s(f32::INFINITY),
        ..Default::default()
    };
    let mut inv = BatteryInverter::new(4, dt, cfg, vec![]);
    let tick = |inv: &mut BatteryInverter| {
        inv.tick(
            &mut BTreeMap::new(),
            &BTreeMap::new(),
            now,
            dt,
            &nearer,
            &times,
            &headroom,
            &travel,
            &minus,
            &plus,
            &spread,
        );
        (f(inv.aggregate_power_w()), f(inv.aggregate_reactive_var()))
    };
    inv.set_active_setpoint(s(10_000.0), now).unwrap();
    tick(&mut inv);
    inv.set_reactive_setpoint(s(1_000.0), now, &times, &headroom).unwrap();
    assert_eq!(tick(&mut inv), (10_000.0, 1_000.0));

    inv.reset_setpoint_axis(SetpointAxis::Reactive);
    assert_eq!(tick(&mut inv), (10_000.0, 0.0));

    inv.set_reactive_setpoint(s(2_000.0), now, &times, &headroom).unwrap();
    assert_eq!(tick(&mut inv), (10_000.0, 2_000.0));
    inv.reset_setpoint_axis(SetpointAxis::Active);
    assert_eq!(f(inv.aggregate_power_w()), 0.0);
    assert_eq!(f(inv.aggregate_reactive_var()), 2_000.0);

    let mut pv = SolarInverter::new(5, dt, SolarInverterConfig::default(), &sunlit);
    pv.set_active_setpoint(s(-5_000.0), now).unwrap();
    pv.tick(now, dt, &sunlit, &times, &headroom, &travel, &minus, &plus);
    pv.reset_setpoint_axis(SetpointAxis::Reactive, &sunlit);
    assert_eq!(f(pv.aggregate_power_w()), -5_000.0);
    pv.reset_setpoint_axis(SetpointAxis::Active, &sunlit);
    assert_eq!(f(pv.aggregate_power_w()), -30_000.0);

    let mut ev = charger();
    ev.set_active_setpoint(s(3_000.0), now).unwrap();
    tick_ev(&mut ev, now, dt);
    ev.reset_setpoint_axis(SetpointAxis::Active);
    assert_eq!(f(ev.aggregate_power_w()), 0.0);
}

#[test]
fn limits_that_are_no_range_are_told_apart() {
    let cfg = BatteryConfig {
        rated_lower_w: s(10.0),
        rated_upper_w: s(-10.0),
        soc_protect_margin_pct: s(0.0),
        ..Default::default()
    };
    let b = Battery::new(1, Span::from_secs(1), cfg, &minus, &plus, &taper);
    assert!(!b.limits_hold());
    let b = Battery::new(
        1,
        Span::from_secs(1),
        BatteryConfig::default(),
        &minus,
        &plus,
        &taper,
    );
    assert!(b.limits_hold());
}

#[test]
fn a_command_is_held_to_the_narrowed_limits() {
    let now = t(1_000);
    let mut ev = charger();
    ev.set_active_setpoint(s(9_000.0), now).unwrap();
    ev.augment_active_bounds(now, narrowed(), Span::from_secs(60));
    tick_ev(&mut ev, now, Span::from_millis(100));
    assert_eq!(f(ev.aggregate_power_w()), 5_000.0);
}

#[test]
fn a_reset_inverter_is_back_at_zero_at_once() {
    let now = t(1_000);
    let dt = Span::from_secs(1);
    let cfg = BatteryInverterConfig {
        ramp_rate_w_per_s: s(1_000.0),
        ..Default::default()
    };
    let mut inv = BatteryInverter::new(4, dt, cfg, vec![]);
    let mut batteries = BTreeMap::new();
    inv.set_active_setpoint(s(10_000.0), now).unwrap();
    tick_inverter(&mut inv, &mut batteries, &BTreeMap::new(), now);
    tick_inverter(&mut inv, &mut batteries, &BTreeMap::new(), now);
    assert_eq!(f(inv.aggregate_power_w()), 200.0);
    inv.reset_setpoint();
    assert_eq!(f(inv.aggregate_power_w()), 0.0);
    tick_inverter(&mut inv, &mut batteries, &BTreeMap::new(), now);
    assert_eq!(f(inv.aggregate_power_w()), 0.0);
}

#[test]
fn a_child_that_is_named_twice_counts_once() {
    let mut w = World::new();
    w.register(component(100, Category::Inverter));
    w.register(component(2, Category::Meter));
    let m = meter(2, vec![100, 7, 100]);
    w.connect(2, 7);
    w.connect(2, 9);
    w.connect(2, 9);
    assert_eq!(m.child_ids(&w.registry), vec![100, 7, 9]);
}
