use switchyard::bounds::{Bounds, VecBounds};
use switchyard::component::Telemetry;
use switchyard::history::{ComponentHistory, History, Metric};
use switchyard::scalar::Scalar;
use switchyard::time::Moment;

fn s(v: f32) -> Scalar {
    Scalar::from_bits(v.to_bits())
}

fn f(v: Scalar) -> f32 {
    f32::from_bits(v.bits)
}

fn t(secs: i64) -> Moment {
    Moment::from_secs(secs)
}

#[test]
fn ring_evicts_oldest_when_full() {
    let mut h = History::new(3);
    h.push(t(1), s(10.0));
    h.push(t(2), s(20.0));
    h.push(t(3), s(30.0));
    h.push(t(4), s(40.0)); // evicts t=1

    let values: Vec<f32> = h.iter().iter().map(|x| f(x.value)).collect();
    assert_eq!(values, vec![20.0, 30.0, 40.0]);
    assert_eq!(h.len(), 3);
}

#[test]
fn iter_window_skips_older_samples() {
    let mut h = History::new(5);
    for i in 1..=5 {
        h.push(t(i), s(i as f32 * 10.0));
    }
    let in_window: Vec<f32> = h.iter_window(t(3)).iter().map(|x| f(x.value)).collect();
    assert_eq!(in_window, vec![30.0, 40.0, 50.0]);
}

#[test]
fn component_history_records_only_published_metrics() {
    let mut ch = ComponentHistory::new(10);
    // Meter-style snapshot: P, Q and frequency, no SoC.
    let snap = Telemetry {
        active_power_w: Some(s(1500.0)),
        reactive_power_var: Some(s(200.0)),
        frequency_hz: Some(s(50.01)),
        ..Default::default()
    };
    ch.push_snapshot(t(1), &snap);
    let metrics = ch.metrics();
    assert!(metrics.contains(&Metric::ActivePowerW));
    assert!(metrics.contains(&Metric::ReactivePowerVar));
    assert!(metrics.contains(&Metric::FrequencyHz));
    assert!(!metrics.contains(&Metric::SocPct));
    assert_eq!(ch.get(Metric::ActivePowerW).unwrap().len(), 1);
}

#[test]
fn component_history_extracts_active_bounds_envelope() {
    let mut ch = ComponentHistory::new(10);
    let snap = Telemetry {
        active_power_w: Some(s(0.0)),
        active_power_bounds: Some(VecBounds::single(s(-5000.0), s(5000.0))),
        ..Default::default()
    };
    ch.push_snapshot(t(1), &snap);
    let lo = ch.get(Metric::ActivePowerLowerBoundW).unwrap();
    let hi = ch.get(Metric::ActivePowerUpperBoundW).unwrap();
    assert_eq!(f(lo.iter()[0].value), -5000.0);
    assert_eq!(f(hi.iter()[0].value), 5000.0);
}

#[test]
fn metric_value_bounds_use_envelope_extremes() {
    let snap = Telemetry {
        active_power_w: Some(s(2500.0)),
        active_power_bounds: Some(VecBounds(vec![
            Bounds {
                lower: Some(s(-10000.0)),
                upper: Some(s(-2000.0)),
            },
            Bounds {
                lower: Some(s(2000.0)),
                upper: Some(s(10000.0)),
            },
        ])),
        ..Default::default()
    };
    assert_eq!(snap.metric_value(Metric::ActivePowerW), Some(s(2500.0)));
    assert_eq!(
        snap.metric_value(Metric::ActivePowerLowerBoundW),
        Some(s(-10000.0))
    );
    assert_eq!(
        snap.metric_value(Metric::ActivePowerUpperBoundW),
        Some(s(10000.0))
    );
    assert_eq!(snap.metric_value(Metric::SocPct), None);
    assert_eq!(snap.metric_value(Metric::ReactivePowerLowerBoundVar), None);
}

#[test]
fn charts_take_the_first_interval_only() {
    let mut ch = ComponentHistory::new(2);
    let snap = Telemetry {
        active_power_bounds: Some(VecBounds(vec![
            Bounds {
                lower: Some(s(-9.0)),
                upper: None,
            },
            Bounds {
                lower: Some(s(2.0)),
                upper: Some(s(10.0)),
            },
        ])),
        reactive_power_bounds: Some((s(-3.0), s(3.0))),
        ..Default::default()
    };
    let pushed = ch.push_snapshot(t(1), &snap);
    assert_eq!(
        pushed,
        vec![
            (Metric::ActivePowerLowerBoundW, s(-9.0)),
            (Metric::ReactivePowerLowerBoundVar, s(-3.0)),
            (Metric::ReactivePowerUpperBoundVar, s(3.0)),
        ]
    );
    assert!(ch.get(Metric::ActivePowerUpperBoundW).is_none());
}

#[test]
fn metric_names_parse_back_and_differ() {
    let all = [
        Metric::ActivePowerW,
        Metric::ReactivePowerVar,
        Metric::FrequencyHz,
        Metric::SocPct,
        Metric::DcPowerW,
        Metric::ActivePowerLowerBoundW,
        Metric::ActivePowerUpperBoundW,
        Metric::ReactivePowerLowerBoundVar,
        Metric::ReactivePowerUpperBoundVar,
    ];
    for m in all {
        assert_eq!(Metric::parse(m.as_str()), Some(m));
        for other in all {
            assert_eq!(m.as_str() == other.as_str(), m == other);
        }
    }
    assert_eq!(Metric::parse("volts"), None);
    assert_eq!((Metric::SocPct.quantity(), Metric::SocPct.unit()), ("Percentage", "%"));
    assert_eq!((Metric::FrequencyHz.quantity(), Metric::FrequencyHz.unit()), ("Frequency", "Hz"));
    assert_eq!((Metric::ReactivePowerVar.quantity(), Metric::ReactivePowerVar.unit()), ("ReactivePower", "var"));
    assert_eq!((Metric::DcPowerW.quantity(), Metric::DcPowerW.unit()), ("Power", "W"));
}

#[test]
fn an_empty_window_is_empty() {
    let mut h = History::new(4);
    assert!(h.is_empty());
    assert!(h.iter_window(t(0)).is_empty());
    h.push(t(1), s(1.0));
    assert!(h.iter_window(t(2)).is_empty());
    assert_eq!(h.iter_window(t(1)).len(), 1);
}

#[test]
fn a_ring_without_capacity_stays_empty() {
    let mut h = History::new(0);
    h.push(t(1), s(10.0));
    h.push(t(2), s(20.0));
    assert!(h.is_empty());
}
