use std::cell::RefCell;
use rand::rngs::SmallRng;
use rand::{RngExt, SeedableRng};
use switchyard::component::SetpointError;
use switchyard::frequency::{default_model, FrequencyModel, FrequencyState};
use switchyard::ramp::{CommandDelay, Ramp};
use switchyard::reactive::{ReactiveCapability, ReactivePath};
use switchyard::scalar::Scalar;
use switchyard::time::{Moment, Span};

fn s(v: f32) -> Scalar {
    Scalar::from_bits(v.to_bits())
}

fn f(v: Scalar) -> f32 {
    f32::from_bits(v.bits)
}

fn plus(a: Scalar, b: Scalar) -> Scalar {
    s(f(a) + f(b))
}

fn minus(a: Scalar, b: Scalar) -> Scalar {
    s(f(a) - f(b))
}

fn times(a: Scalar, b: Scalar) -> Scalar {
    s(f(a) * f(b))
}

fn headroom(va: Scalar, p: Scalar) -> Scalar {
    s((f(va) * f(va) - f(p) * f(p)).max(0.0).sqrt())
}

fn travel(rate: Scalar, dt: Span) -> Scalar {
    s(f(rate) * (dt.nanos as f32 / 1e9))
}

fn t(secs: i64) -> Moment {
    Moment::from_secs(secs)
}

fn q_bounds(cap: &ReactiveCapability, p: f32) -> (f32, f32) {
    let (lo, hi) = cap.q_bounds_at(s(p), &times, &headroom);
    (f(lo), f(hi))
}

#[test]
fn command_delay_zero_arms_immediately() {
    let mut cd = CommandDelay::new(Span::from_secs(0));
    cd.set_target(t(1_000), s(5000.0));
    assert_eq!(cd.armed(), Some(s(5000.0)));
}

#[test]
fn command_delay_blocks_until_due() {
    let mut cd = CommandDelay::new(Span::from_secs(2));
    cd.set_target(t(1_000), s(5000.0));
    assert_eq!(cd.poll(t(1_001)), None);
    assert_eq!(cd.poll(t(1_002)), Some(s(5000.0)));
}

#[test]
fn a_later_command_takes_the_place_of_a_pending_one() {
    let mut cd = CommandDelay::new(Span::from_secs(2));
    cd.set_target(t(1_000), s(1.0));
    cd.set_target(t(1_001), s(2.0));
    assert_eq!(cd.poll(t(1_002)), None);
    assert_eq!(cd.poll(t(1_003)), Some(s(2.0)));
    cd.set_target(t(1_004), s(3.0));
    // The armed command stays in force while the next one waits.
    assert_eq!(cd.poll(t(1_005)), Some(s(2.0)));
    cd.reset();
    assert_eq!(cd.poll(t(9_999)), None);
    assert_eq!(cd.delay().nanos, 2_000_000_000);
}

#[test]
fn ramp_step_limit() {
    let mut r = Ramp::new(s(1000.0), s(0.0));
    r.set_target(s(5000.0));
    let one = Span::from_secs(1);
    assert_eq!(f(r.advance(one, &travel, &minus, &plus)), 1000.0);
    assert_eq!(f(r.advance(one, &travel, &minus, &plus)), 2000.0);
    // A big jump is capped by the step.
    assert_eq!(f(r.advance(Span::from_secs(2), &travel, &minus, &plus)), 4000.0);
}

#[test]
fn ramp_pass_through_when_infinite() {
    let mut r = Ramp::new(s(f32::INFINITY), s(0.0));
    r.set_target(s(5000.0));
    assert_eq!(f(r.advance(Span::from_millis(1), &travel, &minus, &plus)), 5000.0);
}

#[test]
fn ramp_reaches_its_target_and_comes_back() {
    let mut r = Ramp::new(s(1000.0), s(0.0));
    r.set_target(s(-1500.0));
    let one = Span::from_secs(1);
    assert_eq!(f(r.advance(one, &travel, &minus, &plus)), -1000.0);
    assert_eq!(f(r.advance(one, &travel, &minus, &plus)), -1500.0);
    r.set_target(s(0.0));
    assert_eq!(f(r.advance(one, &travel, &minus, &plus)), -500.0);
    r.snap_to(s(42.0));
    assert_eq!((f(r.actual()), f(r.target()), f(r.rate())), (42.0, 42.0, 1000.0));
}

#[test]
fn pf_limit_scales_with_p() {
    let cap = ReactiveCapability {
        pf_limit: Some(s(0.35)),
        apparent_va: None,
    };
    assert_eq!(q_bounds(&cap, 0.0), (0.0, 0.0));
    let (lo, hi) = q_bounds(&cap, 10_000.0);
    assert!((lo + 3500.0).abs() < 1e-3);
    assert!((hi - 3500.0).abs() < 1e-3);
    // The sign of P does not matter.
    assert_eq!(q_bounds(&cap, -10_000.0), (lo, hi));
}

#[test]
fn kva_limit_is_circle() {
    let cap = ReactiveCapability {
        pf_limit: None,
        apparent_va: Some(s(10_000.0)),
    };
    let (lo, hi) = q_bounds(&cap, 0.0);
    assert!((lo + 10_000.0).abs() < 1e-3);
    assert!((hi - 10_000.0).abs() < 1e-3);
    let (lo, hi) = q_bounds(&cap, 6_000.0);
    assert!((lo + 8_000.0).abs() < 1e-3);
    assert!((hi - 8_000.0).abs() < 1e-3);
    assert_eq!(q_bounds(&cap, 10_000.0), (0.0, 0.0));
}

#[test]
fn both_intersect() {
    let cap = ReactiveCapability {
        pf_limit: Some(s(0.5)),
        apparent_va: Some(s(10_000.0)),
    };
    let (lo, hi) = q_bounds(&cap, 4_000.0);
    assert!((lo + 2_000.0).abs() < 1e-3);
    assert!((hi - 2_000.0).abs() < 1e-3);
    let (lo, _hi) = q_bounds(&cap, 9_000.0);
    assert!(lo > -4_500.0 && lo < -4_300.0, "got lo={lo}");
}

#[test]
fn without_a_limit_q_stays_within_p() {
    let cap = ReactiveCapability {
        pf_limit: None,
        apparent_va: None,
    };
    assert_eq!(q_bounds(&cap, -700.0), (-700.0, 700.0));
    assert!(cap.contains(s(-700.0), s(700.0), &times, &headroom));
    assert!(!cap.contains(s(-700.0), s(701.0), &times, &headroom));
    assert_eq!(ReactiveCapability::microsim_default().pf_limit, Some(s(0.35)));
}

#[test]
fn reactive_commands_are_clamped_again_when_promoted() {
    let cap = ReactiveCapability {
        pf_limit: Some(s(0.5)),
        apparent_va: None,
    };
    let mut path = ReactivePath::new(cap, Span::from_secs(1), s(f32::INFINITY));
    assert!(path.accept_setpoint(s(1000.0), s(400.0), t(0), &times, &headroom).is_ok());
    match path.accept_setpoint(s(1000.0), s(600.0), t(0), &times, &headroom) {
        Err(SetpointError::OutOfBounds { value, envelope }) => {
            assert_eq!(f(value), 600.0);
            assert_eq!(envelope.0[0].lower, Some(s(-500.0)));
            assert_eq!(envelope.0[0].upper, Some(s(500.0)));
        }
        other => panic!("expected a refusal, got {other:?}"),
    }
    // By the time the command is due, P has fallen.
    let q = path.step(s(200.0), t(1), Span::from_secs(1), &times, &headroom, &travel, &minus, &plus);
    assert_eq!(f(q), 100.0);
    assert_eq!(f(path.published()), 100.0);
    path.override_published(s(80.0));
    assert_eq!(f(path.published()), 80.0);
    path.set_pf_limit(None);
    path.set_apparent_va(Some(s(1000.0)));
    let (lo, hi) = path.bounds_at(s(600.0), &times, &headroom);
    assert!((f(lo) + 800.0).abs() < 1e-3 && (f(hi) - 800.0).abs() < 1e-3);
    path.reset();
    assert_eq!(f(path.published()), 0.0);
}

fn drift(hz: Scalar, m: FrequencyModel) -> Scalar {
    s(f(hz) - f(m.mean_rev_rate) * (f(hz) - f(m.nominal_hz)) * 0.2)
}

fn calm(model: FrequencyModel) -> FrequencyModel {
    FrequencyModel {
        sigma: s(0.0),
        ..model
    }
}

#[test]
fn ou_drifts_back_to_nominal() {
    let mut state = FrequencyState::new();
    state.base = calm(state.base);
    state.current_hz = s(49.5); // 500 mHz low
    for _ in 0..500 {
        state.step(&drift);
    }
    let gap = (f(state.read_hz()) - 50.0).abs();
    assert!(gap < 0.01, "expected within 10 mHz after 100 s, got {gap}");
}

#[test]
fn override_pulls_toward_override_nominal() {
    let mut state = FrequencyState::new();
    state.current_hz = s(50.0);
    state.override_model = Some(FrequencyModel {
        nominal_hz: s(49.0),
        mean_rev_rate: s(0.05),
        sigma: s(0.0),
    });
    for _ in 0..500 {
        state.step(&drift);
    }
    let gap = (f(state.current_hz) - 49.0).abs();
    assert!(gap < 0.01, "expected to drift to 49.0, got {}", f(state.current_hz));
}

#[test]
fn clearing_override_returns_to_base_dynamics() {
    let mut state = FrequencyState::new();
    state.base = calm(state.base);
    state.override_model = Some(FrequencyModel {
        nominal_hz: s(49.0),
        mean_rev_rate: s(1.0),
        sigma: s(0.0),
    });
    state.current_hz = s(49.0); // pinned to the override
    state.override_model = None; // release
    for _ in 0..500 {
        state.step(&drift);
    }
    let gap = (f(state.current_hz) - 50.0).abs();
    assert!(gap < 0.01, "expected drift back to 50.0, got {}", f(state.current_hz));
}

#[test]
fn step_noise_is_modest() {
    let rng = RefCell::new(SmallRng::seed_from_u64(42));
    let noisy = |hz: Scalar, m: FrequencyModel| {
        let mut rng = rng.borrow_mut();
        let u1: f32 = rng.random_range(1e-10_f32..1.0);
        let u2: f32 = rng.random();
        let normal = (-2.0 * u1.ln()).sqrt() * (2.0 * std::f32::consts::PI * u2).cos();
        s(f(drift(hz, m)) + f(m.sigma) * 0.2_f32.sqrt() * normal)
    };
    let mut state = FrequencyState::new();
    let mut max_dev = 0.0f32;
    for _ in 0..1000 {
        state.step(&noisy);
        max_dev = max_dev.max((f(state.current_hz) - 50.0).abs());
    }
    assert!(max_dev < 0.5, "frequency strayed by {max_dev} Hz");
}

#[test]
fn a_broken_frequency_heals() {
    let mut state = FrequencyState::new();
    state.current_hz = s(f32::NAN);
    state.step(&drift);
    assert_eq!(f(state.read_hz()), 50.0);
    state.current_hz = s(f32::NEG_INFINITY);
    state.step(&drift);
    assert_eq!(f(state.read_hz()), 50.0);
    assert_eq!(state.active_model(), default_model());
    assert_eq!(f(default_model().mean_rev_rate), 0.05);
    assert_eq!(f(default_model().sigma), 0.015);
}

#[test]
fn an_arrived_ramp_stays() {
    let mut r = Ramp::new(s(1000.0), s(250.0));
    for dt in [0, 1, 60] {
        assert_eq!(r.advance(Span::from_secs(dt), &travel, &minus, &plus), s(250.0));
        assert_eq!(r.target(), s(250.0));
    }
}

#[test]
fn an_idle_reactive_path_stays() {
    let cap = ReactiveCapability::microsim_default();
    let mut path = ReactivePath::new(cap, Span::from_secs(0), s(2000.0));
    path.override_published(s(12.0));
    for secs in [1, 2] {
        let q = path.step(
            s(5_000.0),
            t(secs),
            Span::from_secs(1),
            &times,
            &headroom,
            &travel,
            &minus,
            &plus,
        );
        assert_eq!(q, s(0.0));
        assert_eq!(path.published(), s(0.0));
    }
}

#[test]
fn a_ramp_does_not_overshoot() {
    for (from, to) in [(0.0, 25.0), (25.0, -3.0), (0.1, 0.3)] {
        let mut ramp = Ramp::new(s(10.0), s(from));
        ramp.set_target(s(to));
        let mut last = from;
        for _ in 0..4 {
            let at = f(ramp.advance(Span::from_secs(1), &travel, &minus, &plus));
            assert!((last.min(to)..=last.max(to)).contains(&at), "{at}");
            assert!((at - last).abs() <= 10.0);
            assert!(at == to || (at - last).abs() == 10.0);
            last = at;
        }
        assert_eq!(last, to);
    }
}

#[test]
fn the_reactive_range_is_as_wide_as_its_limits_allow() {
    let cap = ReactiveCapability {
        pf_limit: Some(s(0.5)),
        apparent_va: Some(s(10.0)),
    };
    // The ratio ends at 3, the load at 8.
    assert_eq!(q_bounds(&cap, 6.0), (-3.0, 3.0));
    assert_eq!(q_bounds(&cap, -6.0), (-3.0, 3.0));
    let loaded = ReactiveCapability {
        pf_limit: Some(s(2.0)),
        ..cap
    };
    assert_eq!(q_bounds(&loaded, 6.0), (-8.0, 8.0));
    assert_eq!(q_bounds(&loaded, 10.0), (0.0, 0.0));
    assert_eq!(q_bounds(&loaded, 11.0), (0.0, 0.0));
}
