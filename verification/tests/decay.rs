use switchyard::decay::{soc_protected_bounds, SocProtect};
use switchyard::scalar::Scalar;

fn s(v: f32) -> Scalar {
    Scalar::from_bits(v.to_bits())
}

fn f(v: Scalar) -> f32 {
    f32::from_bits(v.bits)
}

fn plus(a: Scalar, b: Scalar) -> Scalar {
    s(f(a) + f(b))
}

fn minus(a: Scalar, b: Scalar) -> Scalar {
    s(f(a) - f(b))
}

/// A straight-line taper: full rating at `start`, nothing at `stop`.
fn taper(rated: Scalar, start: Scalar, stop: Scalar, soc: Scalar) -> Scalar {
    let share = (f(stop) - f(soc)) / (f(stop) - f(start));
    s(f(rated) * share.clamp(0.0, 1.0))
}

fn protect() -> SocProtect {
    SocProtect {
        soc_lower_pct: s(10.0),
        soc_upper_pct: s(90.0),
        margin_pct: s(10.0),
    }
}

fn bounds_at(soc: f32, p: SocProtect) -> (f32, f32) {
    let (lo, hi) = soc_protected_bounds(s(-30000.0), s(30000.0), s(soc), p, &minus, &plus, &taper);
    (f(lo), f(hi))
}

#[test]
fn soc_protect_tapers_upper_only_near_high_soc() {
    let p = protect();
    // Mid-band: full rated.
    assert_eq!(bounds_at(50.0, p), (-30000.0, 30000.0));
    // Near upper: upper derates, lower untouched.
    let (lo, hi) = bounds_at(85.0, p);
    assert_eq!(lo, -30000.0);
    assert!(hi < 30000.0 && hi > 0.0, "expected derated upper, got {hi}");
    // Near lower: lower derates (less negative), upper untouched.
    let (lo, hi) = bounds_at(15.0, p);
    assert_eq!(hi, 30000.0);
    assert!(lo > -30000.0 && lo < 0.0, "expected derated lower, got {lo}");
}

#[test]
fn halfway_through_the_margin_half_is_left() {
    assert_eq!(bounds_at(85.0, protect()), (-30000.0, 15000.0));
    assert_eq!(bounds_at(15.0, protect()), (-15000.0, 30000.0));
}

#[test]
fn without_a_margin_nothing_tapers() {
    let p = SocProtect {
        margin_pct: s(0.0),
        ..protect()
    };
    assert_eq!(bounds_at(50.0, p), (-30000.0, 30000.0));
}
