use switchyard::scalar::Scalar;
use switchyard::setpoints::{
    setpoint_kind_label, SetpointEvent, SetpointKind, SetpointLog, SetpointOutcome,
};
use switchyard::time::{Moment, Span};
use switchyard::timeouts::{SetpointAxis, TimeoutTracker};

fn s(v: f32) -> Scalar {
    Scalar::from_bits(v.to_bits())
}

fn f(v: Scalar) -> f32 {
    f32::from_bits(v.bits)
}

fn t(secs: i64) -> Moment {
    Moment::from_secs(secs)
}

fn ev(secs: i64, kind: SetpointKind, value: f32, accepted: bool) -> SetpointEvent {
    SetpointEvent {
        ts: t(secs),
        kind,
        value: s(value),
        ttl_s: None,
        outcome: if accepted {
            SetpointOutcome::Accepted {
                effective_value: Some(s(value)),
            }
        } else {
            SetpointOutcome::Rejected {
                reason: "out of bounds".into(),
            }
        },
    }
}

#[test]
fn push_evicts_oldest_when_full() {
    let mut log = SetpointLog::new(3);
    for i in 1..=4 {
        log.push(ev(i, SetpointKind::ActivePower, i as f32 * 100.0, true));
    }
    assert_eq!(log.len(), 3);
    let values: Vec<f32> = log.iter().iter().map(|e| f(e.value)).collect();
    assert_eq!(values, vec![200.0, 300.0, 400.0]);
}

#[test]
fn iter_window_is_inclusive_of_since() {
    let mut log = SetpointLog::new(10);
    for i in 1..=5 {
        log.push(ev(i, SetpointKind::ActivePower, i as f32, true));
    }
    let recent: Vec<f32> = log.iter_window(t(3)).iter().map(|e| f(e.value)).collect();
    assert_eq!(recent, vec![3.0, 4.0, 5.0]);
}

#[test]
fn outcomes_serialize_with_kind_tag() {
    let accepted = SetpointOutcome::Accepted {
        effective_value: Some(s(2500.0)),
    };
    let rejected = SetpointOutcome::Rejected {
        reason: "ouch".into(),
    };
    assert_eq!(accepted.tag(), "accepted");
    assert_eq!(rejected.tag(), "rejected");
    assert_eq!(accepted.verdict(), (true, None));
    assert_eq!(rejected.verdict(), (false, Some("ouch".to_string())));
}

#[test]
fn kinds_have_labels() {
    for kind in [
        SetpointKind::ActivePower,
        SetpointKind::ReactivePower,
        SetpointKind::AugmentBounds,
    ] {
        assert_eq!(setpoint_kind_label(kind), kind.as_str());
    }
    assert!(SetpointLog::new(3).is_empty());
}

#[test]
fn axes_expire_independently() {
    let mut tr = TimeoutTracker::new();
    tr.add(7, SetpointAxis::Active, 0, Span::from_secs(3600));
    tr.add(7, SetpointAxis::Reactive, 0, Span::from_secs(0));
    let now = 2_000_000;
    assert_eq!(tr.remove_expired(now), vec![(7, SetpointAxis::Reactive)]);
    // The active deadline is still pending.
    assert_eq!(tr.remove_expired(now), Vec::new());
}

#[test]
fn rearming_one_axis_keeps_the_other() {
    let mut tr = TimeoutTracker::new();
    tr.add(7, SetpointAxis::Reactive, 0, Span::from_secs(0));
    tr.add(7, SetpointAxis::Active, 0, Span::from_secs(0));
    tr.add(7, SetpointAxis::Active, 0, Span::from_secs(3600));
    assert_eq!(
        tr.remove_expired(2_000_000),
        vec![(7, SetpointAxis::Reactive)]
    );
}
