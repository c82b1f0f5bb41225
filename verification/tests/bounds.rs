use switchyard::bounds::{
    bounds_contains, bounds_intersect, merge_if_overlapping, squash, Bounds, ComponentBounds,
    VecBounds,
};
use switchyard::component::{bounds_text, SetpointError};
use switchyard::scalar::Scalar;
use switchyard::time::{Moment, Span};

fn s(v: f32) -> Scalar {
    Scalar::from_bits(v.to_bits())
}

fn f(v: Scalar) -> f32 {
    f32::from_bits(v.bits)
}

fn b(lower: Option<f32>, upper: Option<f32>) -> Bounds {
    Bounds {
        lower: lower.map(s),
        upper: upper.map(s),
    }
}

fn ends(v: &VecBounds) -> Vec<(Option<f32>, Option<f32>)> {
    v.0.iter().map(|x| (x.lower.map(f), x.upper.map(f))).collect()
}

fn nearer(below: Scalar, v: Scalar, above: Scalar) -> bool {
    (f(v) - f(below)).abs() <= (f(above) - f(v)).abs()
}

fn plus(a: Scalar, b: Scalar) -> Scalar {
    s(f(a) + f(b))
}

fn show(v: Scalar) -> String {
    format!("{}", f(v))
}

#[test]
fn contains_and_clamp() {
    let vb = VecBounds::new(vec![b(Some(-30.0), Some(-10.0)), b(Some(10.0), Some(30.0))]);
    assert!(vb.contains(s(-20.0)));
    assert!(!vb.contains(s(0.0)));
    assert_eq!(f(vb.clamp(s(-20.0), nearer)), -20.0);
    // 0 is as close to -10 as to 10, so the lower edge wins.
    assert_eq!(f(vb.clamp(s(0.0), nearer)), -10.0);
    assert_eq!(f(vb.clamp(s(100.0), nearer)), 30.0);
}

#[test]
fn rated_intersected_with_augmentations() {
    let mut cb = ComponentBounds::rated(s(-100.0), s(100.0));
    cb.add_augmentation(
        Moment::from_secs(1_700_000_000),
        VecBounds::single(s(-50.0), s(50.0)),
        Span::from_secs(60),
    );
    let eff = cb.effective();
    assert_eq!(eff.0.len(), 1);
    assert_eq!(eff.0[0].lower, Some(s(-50.0)));
    assert_eq!(eff.0[0].upper, Some(s(50.0)));
}

#[test]
fn an_absent_side_is_unbounded() {
    assert!(bounds_contains(&b(None, Some(5.0)), s(-1e30)));
    assert!(bounds_contains(&b(Some(5.0), None), s(5.0)));
    assert!(!bounds_contains(&b(Some(5.0), None), s(4.9)));
    assert!(bounds_contains(&b(None, None), s(0.0)));
    let narrowed = bounds_intersect(&b(None, Some(5.0)), &b(Some(1.0), None));
    assert_eq!((narrowed.lower, narrowed.upper), (Some(s(1.0)), Some(s(5.0))));
}

#[test]
fn overlapping_intervals_merge() {
    let touching = merge_if_overlapping(&b(Some(0.0), Some(10.0)), &b(Some(10.0), Some(20.0)));
    assert_eq!(touching.map(|x| (x.lower, x.upper)), Some((Some(s(0.0)), Some(s(20.0)))));
    assert!(merge_if_overlapping(&b(Some(0.0), Some(9.0)), &b(Some(10.0), Some(20.0))).is_none());
    let squashed = squash(vec![
        b(Some(0.0), Some(10.0)),
        b(Some(5.0), Some(20.0)),
        b(Some(40.0), Some(50.0)),
    ]);
    assert_eq!(
        ends(&squashed),
        vec![(Some(0.0), Some(20.0)), (Some(40.0), Some(50.0))]
    );
}

#[test]
fn envelopes_add_up() {
    let total = VecBounds::sum_single(
        vec![VecBounds::single(s(-10.0), s(20.0)), VecBounds::single(s(-1.0), s(2.0))],
        plus,
    );
    assert_eq!(ends(&total), vec![(Some(-11.0), Some(22.0))]);
}

#[test]
fn augmentations_expire() {
    let t0 = Moment::from_secs(1_000);
    let mut cb = ComponentBounds::rated(s(-100.0), s(100.0));
    cb.add_augmentation(t0, VecBounds::single(s(-50.0), s(50.0)), Span::from_secs(60));
    cb.drop_expired(Moment::from_secs(1_059));
    assert_eq!(cb.augmented.len(), 1);
    assert!(!cb.contains(s(70.0)));
    cb.drop_expired(Moment::from_secs(1_061));
    assert_eq!(cb.augmented.len(), 0);
    assert!(cb.contains(s(70.0)));
    assert_eq!(f(cb.clamp(s(700.0), nearer)), 100.0);
    cb.set_rated(s(-5.0), s(5.0));
    assert_eq!((f(cb.rated_lower()), f(cb.rated_upper())), (-5.0, 5.0));
}

#[test]
fn intersection_of_unions_keeps_the_common_parts() {
    let a = VecBounds::new(vec![b(Some(-30.0), Some(-10.0)), b(Some(10.0), Some(30.0))]);
    let c = VecBounds::single(s(-20.0), s(20.0));
    assert_eq!(
        ends(&a.intersect(&c)),
        vec![(Some(-20.0), Some(-10.0)), (Some(10.0), Some(20.0))]
    );
}

#[test]
fn refusals_name_the_envelope() {
    let envelope = VecBounds::new(vec![b(Some(-30.0), Some(-10.0)), b(Some(10.0), Some(30.0))]);
    let shown = bounds_text(&envelope, &show);
    let message = SetpointError::OutOfBounds {
        value: s(0.5),
        envelope,
    }
    .message(&show);
    assert!(message.contains("0.5"), "{message}");
    assert!(message.contains(&shown), "{message}");
    assert!(shown.contains("-30") && shown.contains("30"), "{shown}");
}

#[test]
fn a_union_hands_out_its_joined_ranges() {
    let union = VecBounds::new(vec![b(Some(-30.0), Some(-10.0)), b(None, Some(30.0))]);
    let ranges: Vec<(Option<f32>, Option<f32>)> =
        union.into_inner().iter().map(|x| (x.lower.map(f), x.upper.map(f))).collect();
    assert_eq!(ranges, vec![(None, Some(30.0))]);
}

#[test]
fn a_union_is_sorted_and_disjoint() {
    let union = VecBounds::new(vec![
        b(Some(40.0), Some(50.0)),
        b(Some(5.0), Some(20.0)),
        b(Some(0.0), Some(10.0)),
        b(Some(-8.0), Some(-4.0)),
    ]);
    assert_eq!(
        ends(&union),
        vec![
            (Some(-8.0), Some(-4.0)),
            (Some(0.0), Some(20.0)),
            (Some(40.0), Some(50.0))
        ]
    );
    for (value, held) in [(-8.0, true), (-2.0, false), (12.0, true), (30.0, false), (50.0, true)] {
        assert_eq!(union.contains(s(value)), held, "{value}");
    }
    let open = VecBounds::new(vec![b(None, None), b(Some(1.0), Some(2.0)), b(None, None)]);
    assert_eq!(ends(&open), vec![(None, None)]);
}

#[test]
fn an_expired_augmentation_behind_a_live_one_goes() {
    let t0 = Moment::from_secs(1_000);
    let mut cb = ComponentBounds::rated(s(-100.0), s(100.0));
    cb.add_augmentation(t0, VecBounds::single(s(-50.0), s(50.0)), Span::from_secs(60));
    cb.add_augmentation(t0, VecBounds::single(s(-10.0), s(10.0)), Span::from_secs(1));
    cb.add_augmentation(t0, VecBounds::single(s(-40.0), s(80.0)), Span::from_secs(60));
    assert_eq!(ends(&cb.effective()), vec![(Some(-10.0), Some(10.0))]);
    cb.drop_expired(Moment::from_secs(1_002));
    assert_eq!(cb.augmented.len(), 2);
    assert_eq!(ends(&cb.effective()), vec![(Some(-40.0), Some(50.0))]);
    cb.drop_expired(Moment::from_secs(1_061));
    assert_eq!(ends(&cb.effective()), vec![(Some(-100.0), Some(100.0))]);
}

#[test]
fn clamping_moves_no_farther_than_needed() {
    let union = VecBounds::new(vec![b(Some(-30.0), Some(-10.0)), b(Some(2.0), Some(30.0))]);
    for (value, nearest) in [(-5.0, -10.0), (-3.0, 2.0), (-4.0, -10.0), (40.0, 30.0), (7.0, 7.0)] {
        assert_eq!(f(union.clamp(s(value), nearer)), nearest, "{value}");
    }
    assert_eq!(f(union.clamp(s(-40.0), nearer)), -30.0);
}
