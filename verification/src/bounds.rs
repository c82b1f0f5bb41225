//! Power-bound containers.
//!
//! [`VecBounds`] is a sorted list of disjoint closed intervals, each side of
//! which may be open. [`ComponentBounds`] holds a component's rated interval
//! plus a queue of time-limited augmentations that narrow it.

use crate::fold::{exact_fold_adds_up, folds, folds_push, sum_of};
use crate::order::{
    as_ints, order_of, positions, stable_order, stable_order_exists, stable_order_is_permutation,
    stably_sorted,
};
use crate::scalar::{lowest, zero, Scalar};
use crate::time::{in_calendar, Moment, Span};
use std::collections::VecDeque;
use vstd::prelude::*;

verus! {

/// One interval; an absent side is unbounded.
#[derive(Clone, Copy, Debug, PartialEq, Eq, Structural)]
pub struct Bounds {
    pub lower: Option<Scalar>,
    pub upper: Option<Scalar>,
}

/// A union of intervals.
#[derive(Debug)]
pub struct VecBounds(pub Vec<Bounds>);

impl View for VecBounds {
    type V = Seq<Bounds>;

    open spec fn view(&self) -> Seq<Bounds> {
        self.0@
    }
}

impl Clone for VecBounds {
    fn clone(&self) -> (out: Self)
        ensures
            out@ == self@,
    {
        let mut copy: Vec<Bounds> = Vec::new();
        let mut i: usize = 0;
        while i < self.0.len()
            invariant
                i <= self.0.len(),
                copy@ == self.0@.subrange(0, i as int),
            decreases self.0.len() - i,
        {
            copy.push(self.0[i]);
            i = i + 1;
        }
        assert(copy@ =~= self.0@);
        VecBounds(copy)
    }
}

impl Default for VecBounds {
    fn default() -> (out: Self)
        ensures
            out@ == Seq::<Bounds>::empty(),
    {
        VecBounds(Vec::new())
    }
}

impl Bounds {
    /// Neither side bounded.
    pub open spec fn is_open(self) -> bool {
        self.lower is None && self.upper is None
    }

    /// Neither side is NaN.
    pub open spec fn is_numeric(self) -> bool {
        &&& self.lower matches Some(l) ==> !l.spec_is_nan()
        &&& self.upper matches Some(u) ==> !u.spec_is_nan()
    }

    /// Both sides are numbers.
    pub open spec fn is_firm(self) -> bool {
        &&& self.lower is Some && !self.lower->0.spec_is_nan()
        &&& self.upper is Some && !self.upper->0.spec_is_nan()
    }

    /// Both sides are numbers, and the lower one is not above the upper one.
    pub open spec fn is_in_order(self) -> bool {
        self.is_firm() && self.lower->0.spec_at_most(self.upper->0)
    }

    /// `value` is not beyond either side.
    pub open spec fn spec_contains(self, value: Scalar) -> bool {
        &&& self.lower matches Some(l) ==> !value.spec_below(l)
        &&& self.upper matches Some(u) ==> !u.spec_below(value)
    }

    /// Where the interval starts when intervals are ordered.
    pub open spec fn start_rank(self) -> int {
        match self.lower {
            Some(l) => l.spec_rank(),
            None => lowest().spec_rank(),
        }
    }
}

/// `value` lies in one of the intervals.
pub open spec fn union_contains(bounds: Seq<Bounds>, value: Scalar) -> bool {
    exists|i: int| 0 <= i < bounds.len() && #[trigger] bounds[i].spec_contains(value)
}

/// The tighter of two lower sides.
pub open spec fn tighter_lower(a: Option<Scalar>, b: Option<Scalar>) -> Option<Scalar> {
    match (a, b) {
        (Some(x), Some(y)) => Some(x.spec_greater(y)),
        (Some(x), None) => Some(x),
        (None, y) => y,
    }
}

/// The tighter of two upper sides.
pub open spec fn tighter_upper(a: Option<Scalar>, b: Option<Scalar>) -> Option<Scalar> {
    match (a, b) {
        (Some(x), Some(y)) => Some(x.spec_lesser(y)),
        (Some(x), None) => Some(x),
        (None, y) => y,
    }
}

/// The overlap of two intervals; both sides absent when there is none.
pub open spec fn overlap(a: Bounds, b: Bounds) -> Bounds {
    let lower = tighter_lower(a.lower, b.lower);
    let upper = tighter_upper(a.upper, b.upper);
    match (lower, upper) {
        (Some(l), Some(u)) => if u.spec_below(l) {
            Bounds { lower: None, upper: None }
        } else {
            Bounds { lower, upper }
        },
        _ => Bounds { lower, upper },
    }
}

/// The two intervals have a value in common.
pub open spec fn meet(a: Bounds, b: Bounds) -> bool {
    (a.is_open() && b.is_open()) || !overlap(a, b).is_open()
}

/// The hull of two overlapping intervals: a side is bounded only where both
/// are.
pub open spec fn hull(a: Bounds, b: Bounds) -> Bounds {
    Bounds {
        lower: match (a.lower, b.lower) {
            (Some(x), Some(y)) => Some(x.spec_lesser(y)),
            _ => None,
        },
        upper: match (a.upper, b.upper) {
            (Some(x), Some(y)) => Some(x.spec_greater(y)),
            _ => None,
        },
    }
}

/// Interval starts, in order.
pub open spec fn start_ranks(bounds: Seq<Bounds>) -> Seq<int> {
    bounds.map_values(|b: Bounds| b.start_rank())
}

/// Intervals by ascending start.
pub open spec fn by_start(bounds: Seq<Bounds>) -> Seq<Bounds> {
    stably_sorted(bounds, start_ranks(bounds))
}

/// `current` followed by `rest`, each interval joined with the run before it
/// while they overlap.
pub open spec fn joined(current: Bounds, rest: Seq<Bounds>) -> Seq<Bounds>
    decreases rest.len(),
{
    if rest.len() == 0 {
        seq![current]
    } else if meet(current, rest[0]) {
        joined(hull(current, rest[0]), rest.drop_first())
    } else {
        seq![current] + joined(rest[0], rest.drop_first())
    }
}

/// The intervals ordered by start, overlapping neighbours joined.
pub open spec fn normal_form(bounds: Seq<Bounds>) -> Seq<Bounds> {
    let sorted = by_start(bounds);
    if sorted.len() == 0 {
        sorted
    } else {
        joined(sorted[0], sorted.drop_first())
    }
}

/// The overlaps of `a` with each of `others` that are bounded on some side.
pub open spec fn overlaps_with(a: Bounds, others: Seq<Bounds>) -> Seq<Bounds>
    decreases others.len(),
{
    if others.len() == 0 {
        Seq::empty()
    } else {
        let rest = overlaps_with(a, others.drop_last());
        let o = overlap(a, others.last());
        if o.is_open() {
            rest
        } else {
            rest.push(o)
        }
    }
}

/// The overlaps of each of `left` with each of `right` that are bounded on
/// some side.
pub open spec fn overlaps(left: Seq<Bounds>, right: Seq<Bounds>) -> Seq<Bounds>
    decreases left.len(),
{
    if left.len() == 0 {
        Seq::empty()
    } else {
        overlaps(left.drop_last(), right) + overlaps_with(left.last(), right)
    }
}

/// The intersection of two unions, in normal form.
pub open spec fn intersection(left: Seq<Bounds>, right: Seq<Bounds>) -> Seq<Bounds> {
    normal_form(overlaps(left, right))
}

pub fn bounds_contains(b: &Bounds, value: Scalar) -> (out: bool)
    ensures
        out == b.spec_contains(value),
{
    if let Some(l) = b.lower {
        if value.below(l) {
            return false;
        }
    }
    if let Some(u) = b.upper {
        if u.below(value) {
            return false;
        }
    }
    true
}

pub fn bounds_intersect(a: &Bounds, b: &Bounds) -> (out: Bounds)
    ensures
        out == overlap(*a, *b),
{
    let lower = match (a.lower, b.lower) {
        (Some(x), Some(y)) => Some(x.greater(y)),
        (Some(x), None) => Some(x),
        (None, y) => y,
    };
    let upper = match (a.upper, b.upper) {
        (Some(x), Some(y)) => Some(x.lesser(y)),
        (Some(x), None) => Some(x),
        (None, y) => y,
    };
    if let (Some(l), Some(u)) = (lower, upper) {
        if u.below(l) {
            return Bounds { lower: None, upper: None };
        }
    }
    Bounds { lower, upper }
}

/// The hull of two intervals that have a value in common.
pub fn merge_if_overlapping(a: &Bounds, b: &Bounds) -> (out: Option<Bounds>)
    ensures
        out == (if meet(*a, *b) {
            Some(hull(*a, *b))
        } else {
            None
        }),
{
    let common = bounds_intersect(a, b);
    let both_open = a.lower.is_none() && a.upper.is_none() && b.lower.is_none()
        && b.upper.is_none();
    if both_open || common.lower.is_some() || common.upper.is_some() {
        let lower = match (a.lower, b.lower) {
            (Some(x), Some(y)) => Some(x.lesser(y)),
            _ => None,
        };
        let upper = match (a.upper, b.upper) {
            (Some(x), Some(y)) => Some(x.greater(y)),
            _ => None,
        };
        Some(Bounds { lower, upper })
    } else {
        None
    }
}

/// The intervals by ascending start, ties in their original order.
fn sort_by_start(input: Vec<Bounds>) -> (out: Vec<Bounds>)
    ensures
        out@ == by_start(input@),
{
    let mut keys: Vec<i64> = Vec::new();
    let mut i: usize = 0;
    while i < input.len()
        invariant
            i <= input.len(),
            keys.len() == i,
            forall|k: int| 0 <= k < i ==> #[trigger] keys[k] == input[k].start_rank(),
        decreases input.len() - i,
    {
        let key: i64 = match input[i].lower {
            Some(l) => l.rank(),
            None => lowest().rank(),
        };
        keys.push(key);
        i = i + 1;
    }
    let order = stable_order(&keys);
    assert(as_ints(keys@) =~= start_ranks(input@));
    let mut out: Vec<Bounds> = Vec::new();
    let mut j: usize = 0;
    while j < order.len()
        invariant
            j <= order.len(),
            out.len() == j,
            positions(order@) == order_of(start_ranks(input@)),
            forall|k: int| 0 <= k < order.len() ==> 0 <= #[trigger] order[k] < input.len(),
            forall|k: int| 0 <= k < j ==> #[trigger] out[k] == input[order[k] as int],
        decreases order.len() - j,
    {
        out.push(input[order[j]]);
        j = j + 1;
    }
    proof {
        let ord = order_of(start_ranks(input@));
        assert forall|k: int| 0 <= k < out.len() implies #[trigger] out[k] == by_start(
            input@,
        )[k] by {
            assert(ord[k] == order[k]);
        }
        assert(out@ =~= by_start(input@));
    }
    out
}

/// Orders intervals by start and joins overlapping neighbours.
pub fn squash(input: Vec<Bounds>) -> (out: VecBounds)
    ensures
        out@ == normal_form(input@),
{
    let sorted = sort_by_start(input);
    if sorted.len() == 0 {
        return VecBounds(sorted);
    }
    let mut squashed: Vec<Bounds> = Vec::new();
    let mut current = sorted[0];
    let mut i: usize = 1;
    assert(sorted@.subrange(1, sorted.len() as int) =~= sorted@.drop_first());
    while i < sorted.len()
        invariant
            1 <= i <= sorted.len(),
            joined(sorted[0], sorted@.drop_first()) == squashed@ + joined(
                current,
                sorted@.subrange(i as int, sorted.len() as int),
            ),
        decreases sorted.len() - i,
    {
        let next = sorted[i];
        let ghost rest = sorted@.subrange(i as int, sorted.len() as int);
        let ghost before = squashed@;
        let ghost held = current;
        assert(rest[0] == next);
        assert(rest.drop_first() =~= sorted@.subrange(i + 1, sorted.len() as int));
        if let Some(merged) = merge_if_overlapping(&current, &next) {
            current = merged;
        } else {
            squashed.push(current);
            assert(before + (seq![held] + joined(next, rest.drop_first())) =~= squashed@ + joined(
                next,
                rest.drop_first(),
            ));
            current = next;
        }
        i = i + 1;
    }
    let ghost before = squashed@;
    assert(sorted@.subrange(i as int, sorted.len() as int) =~= Seq::<Bounds>::empty());
    squashed.push(current);
    assert(before + seq![current] =~= squashed@);
    VecBounds(squashed)
}

/// The position of the first interval that starts above `value`, or the
/// number of intervals.
pub open spec fn first_above(bounds: Seq<Bounds>, value: Scalar) -> int
    decreases bounds.len(),
{
    if bounds.len() == 0 {
        0
    } else {
        let k = first_above(bounds.drop_last(), value);
        if k < bounds.len() - 1 || (bounds.last().lower matches Some(l) && value.spec_below(l)) {
            k
        } else {
            bounds.len() as int
        }
    }
}

/// The upper side of the last interval that has one.
pub open spec fn last_upper(bounds: Seq<Bounds>) -> Option<Scalar>
    decreases bounds.len(),
{
    if bounds.len() == 0 {
        None
    } else if bounds.last().upper is Some {
        bounds.last().upper
    } else {
        last_upper(bounds.drop_last())
    }
}

/// What each container holds.
pub open spec fn unions(items: Seq<VecBounds>) -> Seq<Seq<Bounds>> {
    items.map_values(|b: VecBounds| b@)
}

/// The first interval of each non-empty union.
pub open spec fn leading(items: Seq<Seq<Bounds>>) -> Seq<Bounds>
    decreases items.len(),
{
    if items.len() == 0 {
        Seq::empty()
    } else if items.last().len() == 0 {
        leading(items.drop_last())
    } else {
        leading(items.drop_last()).push(items.last()[0])
    }
}

/// `out` is the single interval whose sides add up those of the first
/// interval of each union, `plus` being the addition.
pub open spec fn is_sum<F: Fn(Scalar, Scalar) -> Scalar>(
    plus: F,
    items: Seq<Seq<Bounds>>,
    out: Seq<Bounds>,
) -> bool {
    exists|l: Scalar, u: Scalar|
        #![trigger folds(plus, zero(), lower_sides(leading(items)), l), folds(plus, zero(), upper_sides(leading(items)), u)]
        folds(plus, zero(), lower_sides(leading(items)), l) && folds(
            plus,
            zero(),
            upper_sides(leading(items)),
            u,
        ) && out == seq![Bounds { lower: Some(l), upper: Some(u) }]
}

/// The lower sides that are present.
pub open spec fn lower_sides(bounds: Seq<Bounds>) -> Seq<Scalar>
    decreases bounds.len(),
{
    if bounds.len() == 0 {
        Seq::empty()
    } else {
        match bounds.last().lower {
            Some(l) => lower_sides(bounds.drop_last()).push(l),
            None => lower_sides(bounds.drop_last()),
        }
    }
}

/// The upper sides that are present.
pub open spec fn upper_sides(bounds: Seq<Bounds>) -> Seq<Scalar>
    decreases bounds.len(),
{
    if bounds.len() == 0 {
        Seq::empty()
    } else {
        match bounds.last().upper {
            Some(u) => upper_sides(bounds.drop_last()).push(u),
            None => upper_sides(bounds.drop_last()),
        }
    }
}

impl VecBounds {
    pub fn single(lower: Scalar, upper: Scalar) -> (out: Self)
        ensures
            out@ == seq![Bounds { lower: Some(lower), upper: Some(upper) }],
    {
        let mut v: Vec<Bounds> = Vec::new();
        v.push(Bounds { lower: Some(lower), upper: Some(upper) });
        assert(v@ =~= seq![Bounds { lower: Some(lower), upper: Some(upper) }]);
        VecBounds(v)
    }

    /// The union of the intervals, in normal form.
    pub fn new(bounds: Vec<Bounds>) -> (out: Self)
        ensures
            out@ == normal_form(bounds@),
    {
        squash(bounds)
    }

    pub fn into_inner(self) -> (out: Vec<Bounds>)
        ensures
            out@ == self@,
    {
        self.0
    }

    pub fn contains(&self, value: Scalar) -> (out: bool)
        ensures
            out == union_contains(self@, value),
    {
        let mut i: usize = 0;
        while i < self.0.len()
            invariant
                i <= self.0.len(),
                forall|k: int| 0 <= k < i ==> !(#[trigger] self@[k].spec_contains(value)),
            decreases self.0.len() - i,
        {
            if bounds_contains(&self.0[i], value) {
                assert(self@[i as int].spec_contains(value));
                return true;
            }
            i = i + 1;
        }
        false
    }

    /// Pulls `value` to the closest edge when it lies outside the union;
    /// identity when the union is empty or already holds it. In a gap between
    /// two edges, `nearer(below, value, above)` decides whether the edge below
    /// is at most as far as the one above.
    pub fn clamp<F: Fn(Scalar, Scalar, Scalar) -> bool>(&self, value: Scalar, nearer: F) -> (out:
        Scalar)
        requires
            forall|a: Scalar, b: Scalar, c: Scalar| call_requires(nearer, (a, b, c)),
        ensures
            clamped(self@, value, nearer, out),
    {
        if self.0.len() == 0 || self.contains(value) {
            return value;
        }
        let mut prev_upper: Option<Scalar> = None;
        let mut i: usize = 0;
        while i < self.0.len()
            invariant
                i <= self.0.len(),
                prev_upper == last_upper(self@.subrange(0, i as int)),
                first_above(self@.subrange(0, i as int), value) == i,
                self@.len() > 0 && !union_contains(self@, value),
                forall|a: Scalar, b: Scalar, c: Scalar| call_requires(nearer, (a, b, c)),
            decreases self.0.len() - i,
        {
            let b = self.0[i];
            assert(self@.subrange(0, i + 1).drop_last() =~= self@.subrange(0, i as int));
            if let Some(lower) = b.lower {
                if value.below(lower) {
                    proof {
                        first_above_extends(self@, i + 1, value);
                        assert(self@.subrange(0, self@.len() as int) =~= self@);
                    }
                    return match prev_upper {
                        Some(pu) => if nearer(pu, value, lower) {
                            pu
                        } else {
                            lower
                        },
                        None => lower,
                    };
                }
            }
            if let Some(upper) = b.upper {
                prev_upper = Some(upper);
            }
            i = i + 1;
        }
        assert(self@.subrange(0, self@.len() as int) =~= self@);
        match prev_upper {
            Some(u) => u,
            None => value,
        }
    }

    /// Sums the first interval of each container side by side, `plus` being
    /// the addition. A container without intervals counts as zero, so nothing
    /// sums to `[0, 0]`.
    pub fn sum_single<F: Fn(Scalar, Scalar) -> Scalar>(items: Vec<VecBounds>, plus: F) -> (out:
        Self)
        requires
            forall|a: Scalar, b: Scalar| call_requires(plus, (a, b)),
        ensures
            is_sum(plus, unions(items@), out@),
    {
        let mut lower: Scalar = zero();
        let mut upper: Scalar = zero();
        let mut i: usize = 0;
        while i < items.len()
            invariant
                i <= items.len(),
                forall|a: Scalar, b: Scalar| call_requires(plus, (a, b)),
                folds(plus, zero(), lower_sides(leading(unions(items@).take(i as int))), lower),
                folds(plus, zero(), upper_sides(leading(unions(items@).take(i as int))), upper),
            decreases items.len() - i,
        {
            let ghost before = leading(unions(items@).take(i as int));
            assert(unions(items@).take(i + 1).drop_last() =~= unions(items@).take(i as int));
            assert(unions(items@).take(i + 1).last() == items@[i as int]@);
            if items[i].0.len() > 0 {
                let b = items[i].0[0];
                assert(before.push(b).drop_last() =~= before);
                if let Some(l) = b.lower {
                    let ghost sides = lower_sides(before);
                    let next = plus(lower, l);
                    proof {
                        folds_push(plus, zero(), sides, lower, l, next);
                    }
                    lower = next;
                }
                if let Some(u) = b.upper {
                    let ghost sides = upper_sides(before);
                    let next = plus(upper, u);
                    proof {
                        folds_push(plus, zero(), sides, upper, u, next);
                    }
                    upper = next;
                }
            }
            i = i + 1;
        }
        assert(unions(items@).take(items@.len() as int) =~= unions(items@));
        Self::single(lower, upper)
    }

    /// The union of the pairwise overlaps, in normal form.
    pub fn intersect(&self, other: &Self) -> (out: Self)
        ensures
            out@ == intersection(self@, other@),
    {
        let mut result: Vec<Bounds> = Vec::new();
        let mut i: usize = 0;
        while i < self.0.len()
            invariant
                i <= self.0.len(),
                result@ == overlaps(self@.subrange(0, i as int), other@),
            decreases self.0.len() - i,
        {
            let ghost start = result@;
            let b1 = self.0[i];
            let mut j: usize = 0;
            assert(other@.subrange(0, 0) =~= Seq::<Bounds>::empty());
            assert(start + Seq::<Bounds>::empty() =~= start);
            while j < other.0.len()
                invariant
                    j <= other.0.len(),
                    result@ == start + overlaps_with(b1, other@.subrange(0, j as int)),
                decreases other.0.len() - j,
            {
                let common = bounds_intersect(&b1, &other.0[j]);
                assert(other@.subrange(0, j + 1).drop_last() =~= other@.subrange(0, j as int));
                let ghost prefix = overlaps_with(b1, other@.subrange(0, j as int));
                if common.lower.is_some() || common.upper.is_some() {
                    result.push(common);
                    assert((start + prefix).push(common) =~= start + prefix.push(common));
                }
                j = j + 1;
            }
            assert(other@.subrange(0, other@.len() as int) =~= other@);
            assert(self@.subrange(0, i + 1).drop_last() =~= self@.subrange(0, i as int));
            i = i + 1;
        }
        assert(self@.subrange(0, self@.len() as int) =~= self@);
        squash(result)
    }
}

/// What clamping `value` to a union of intervals yields.
pub open spec fn clamped<F: Fn(Scalar, Scalar, Scalar) -> bool>(
    bounds: Seq<Bounds>,
    value: Scalar,
    nearer: F,
    out: Scalar,
) -> bool {
    let k = first_above(bounds, value);
    if bounds.len() == 0 || union_contains(bounds, value) {
        out == value
    } else if k == bounds.len() {
        out == (match last_upper(bounds) {
            Some(u) => u,
            None => value,
        })
    } else {
        let above = bounds[k].lower->0;
        match last_upper(bounds.subrange(0, k)) {
            None => out == above,
            Some(below) => {
                ||| call_ensures(nearer, (below, value, above), true) && out == below
                ||| call_ensures(nearer, (below, value, above), false) && out == above
            },
        }
    }
}

proof fn first_above_extends(bounds: Seq<Bounds>, n: int, value: Scalar)
    requires
        0 <= n <= bounds.len(),
        first_above(bounds.subrange(0, n), value) < n,
    ensures
        first_above(bounds, value) == first_above(bounds.subrange(0, n), value),
    decreases bounds.len() - n,
{
    if n == bounds.len() {
        assert(bounds.subrange(0, n) =~= bounds);
    } else {
        assert(bounds.subrange(0, n + 1).drop_last() =~= bounds.subrange(0, n));
        first_above_extends(bounds, n + 1, value);
    }
}

/// A time-limited narrowing of a component's bounds.
#[derive(Debug)]
pub struct Aug {
    pub create_ts: Moment,
    pub bounds: VecBounds,
    pub lifetime: Span,
}

/// Rated bounds with a queue of time-limited augmentations.
#[derive(Debug)]
pub struct ComponentBounds {
    pub rated: VecBounds,
    pub augmented: VecDeque<Aug>,
}

impl Aug {
    /// When the augmentation runs out, in nanoseconds.
    pub open spec fn expiry(self) -> int {
        self.create_ts.nanos + self.lifetime.spec_delta()
    }

    pub open spec fn is_expired(self, now: Moment) -> bool {
        self.expiry() < now.nanos
    }
}

/// `rated` intersected with each augmentation in turn.
pub open spec fn narrowed(rated: Seq<Bounds>, augs: Seq<Aug>) -> Seq<Bounds>
    decreases augs.len(),
{
    if augs.len() == 0 {
        rated
    } else {
        intersection(narrowed(rated, augs.drop_last()), augs.last().bounds@)
    }
}

impl ComponentBounds {
    /// Every augmentation runs out at an instant of the calendar.
    pub open spec fn is_dated(self) -> bool {
        forall|i: int|
            0 <= i < self.augmented@.len() ==> in_calendar(#[trigger] self.augmented@[i].expiry())
    }

    /// The effective bounds: rated, narrowed by every augmentation it holds.
    pub open spec fn spec_effective(self) -> Seq<Bounds> {
        narrowed(self.rated@, self.augmented@)
    }

    /// `self` is `before` without the augmentations that have run out.
    pub open spec fn is_pruned(self, before: Self, now: Moment) -> bool {
        &&& self.rated == before.rated
        &&& self.augmented@ == before.augmented@.filter(|a: Aug| !a.is_expired(now))
    }

    pub fn rated(lower: Scalar, upper: Scalar) -> (out: Self)
        ensures
            out.rated@ == seq![Bounds { lower: Some(lower), upper: Some(upper) }],
            out.augmented@ == Seq::<Aug>::empty(),
            out.is_dated(),
    {
        ComponentBounds { rated: VecBounds::single(lower, upper), augmented: VecDeque::new() }
    }

    pub fn set_rated(&mut self, lower: Scalar, upper: Scalar)
        ensures
            final(self).rated@ == seq![Bounds { lower: Some(lower), upper: Some(upper) }],
            final(self).augmented == old(self).augmented,
    {
        self.rated = VecBounds::single(lower, upper);
    }

    /// The rated lower side, or zero where there is none.
    pub fn rated_lower(&self) -> (out: Scalar)
        ensures
            out == (if self.rated@.len() > 0 && self.rated@[0].lower is Some {
                self.rated@[0].lower->0
            } else {
                zero()
            }),
    {
        if self.rated.0.len() > 0 {
            if let Some(l) = self.rated.0[0].lower {
                return l;
            }
        }
        zero()
    }

    /// The rated upper side, or zero where there is none.
    pub fn rated_upper(&self) -> (out: Scalar)
        ensures
            out == (if self.rated@.len() > 0 && self.rated@[0].upper is Some {
                self.rated@[0].upper->0
            } else {
                zero()
            }),
    {
        if self.rated.0.len() > 0 {
            if let Some(u) = self.rated.0[0].upper {
                return u;
            }
        }
        zero()
    }

    pub fn add_augmentation(&mut self, create_ts: Moment, bounds: VecBounds, lifetime: Span)
        ensures
            final(self).rated == old(self).rated,
            final(self).augmented@ == old(self).augmented@.push(
                Aug { create_ts, bounds, lifetime },
            ),
            old(self).is_dated() && in_calendar(create_ts.nanos + lifetime.spec_delta())
                ==> final(self).is_dated(),
    {
        self.augmented.push_back(Aug { create_ts, bounds, lifetime });
    }

    /// Drops the augmentations that have run out; those still live keep their
    /// order.
    pub fn drop_expired(&mut self, now: Moment)
        requires
            old(self).is_dated(),
        ensures
            final(self).is_pruned(*old(self), now),
            final(self).is_dated(),
    {
        let ghost start = self.augmented@;
        let ghost live = |a: Aug| !a.is_expired(now);
        let ghost mut seen: int = 0;
        let mut kept: VecDeque<Aug> = VecDeque::new();
        proof {
            reveal(Seq::filter);
            assert(start.skip(0) =~= start);
            assert(kept@ =~= start.take(0).filter(live));
        }
        while self.augmented.len() > 0
            invariant
                0 <= seen <= start.len(),
                self.rated == old(self).rated,
                start == old(self).augmented@,
                live == (|a: Aug| !a.is_expired(now)),
                self.augmented@ == start.skip(seen),
                kept@ == start.take(seen).filter(live),
                forall|i: int| 0 <= i < start.len() ==> in_calendar(#[trigger] start[i].expiry()),
                forall|i: int| 0 <= i < kept@.len() ==> in_calendar(#[trigger] kept@[i].expiry()),
            decreases start.len() - seen,
        {
            let ghost rest = self.augmented@;
            let popped = self.augmented.pop_front();
            assert(popped == Some(rest[0]));
            proof {
                reveal(Seq::filter);
                assert(in_calendar(start[seen].expiry()));
                assert(start.take(seen + 1).drop_last() =~= start.take(seen));
                assert(start.skip(seen).drop_first() =~= start.skip(seen + 1));
                seen = seen + 1;
            }
            if let Some(a) = popped {
                let delta: i128 = a.lifetime.delta();
                let expiry: i128 = a.create_ts.nanos + delta;
                if expiry >= now.nanos {
                    kept.push_back(a);
                }
            }
        }
        self.augmented = kept;
        assert(start.take(start.len() as int) =~= start);
    }

    /// Effective bounds: rated, narrowed by every augmentation it holds.
    pub fn effective(&self) -> (out: VecBounds)
        ensures
            out@ == self.spec_effective(),
    {
        let mut out = self.rated.clone();
        let mut i: usize = 0;
        while i < self.augmented.len()
            invariant
                i <= self.augmented@.len(),
                out@ == narrowed(self.rated@, self.augmented@.subrange(0, i as int)),
            decreases self.augmented@.len() - i,
        {
            assert(self.augmented@.subrange(0, i + 1).drop_last() =~= self.augmented@.subrange(
                0,
                i as int,
            ));
            out = out.intersect(&self.augmented[i].bounds);
            i = i + 1;
        }
        assert(self.augmented@.subrange(0, self.augmented@.len() as int) =~= self.augmented@);
        out
    }

    pub fn contains(&self, value: Scalar) -> (out: bool)
        ensures
            out == union_contains(self.spec_effective(), value),
    {
        self.effective().contains(value)
    }

    pub fn clamp<F: Fn(Scalar, Scalar, Scalar) -> bool>(&self, value: Scalar, nearer: F) -> (out:
        Scalar)
        requires
            forall|a: Scalar, b: Scalar, c: Scalar| call_requires(nearer, (a, b, c)),
        ensures
            clamped(self.spec_effective(), value, nearer, out),
    {
        self.effective().clamp(value, nearer)
    }
}

/// Every interval is free of NaN.
pub open spec fn all_numeric(bounds: Seq<Bounds>) -> bool {
    forall|i: int| 0 <= i < bounds.len() ==> #[trigger] bounds[i].is_numeric()
}

/// Every interval is bounded on both sides.
pub open spec fn all_bounded(bounds: Seq<Bounds>) -> bool {
    forall|i: int|
        0 <= i < bounds.len() ==> (#[trigger] bounds[i]).lower is Some && bounds[i].upper is Some
}

/// Both sides of every interval are numbers.
pub open spec fn all_firm(bounds: Seq<Bounds>) -> bool {
    forall|i: int| 0 <= i < bounds.len() ==> #[trigger] bounds[i].is_firm()
}

/// No interval is inverted, open or NaN.
pub open spec fn all_in_order(bounds: Seq<Bounds>) -> bool {
    forall|i: int| 0 <= i < bounds.len() ==> #[trigger] bounds[i].is_in_order()
}

proof fn hull_is_union(a: Bounds, b: Bounds, value: Scalar)
    requires
        a.is_numeric(),
        b.is_numeric(),
        !value.spec_is_nan(),
        meet(a, b),
    ensures
        hull(a, b).spec_contains(value) == (a.spec_contains(value) || b.spec_contains(value)),
        hull(a, b).is_numeric(),
{
}

proof fn overlap_is_conjunction(a: Bounds, b: Bounds, value: Scalar)
    requires
        a.is_numeric(),
        b.is_numeric(),
        !value.spec_is_nan(),
        !(a.is_open() && b.is_open()),
    ensures
        overlap(a, b).is_numeric(),
        (!overlap(a, b).is_open() && overlap(a, b).spec_contains(value)) == (a.spec_contains(value)
            && b.spec_contains(value)),
{
}

proof fn union_push(bounds: Seq<Bounds>, b: Bounds, value: Scalar)
    ensures
        union_contains(bounds.push(b), value) == (union_contains(bounds, value)
            || b.spec_contains(value)),
{
    let all = bounds.push(b);
    if union_contains(bounds, value) {
        let i = choose|i: int| 0 <= i < bounds.len() && #[trigger] bounds[i].spec_contains(value);
        assert(all[i].spec_contains(value));
    }
    if b.spec_contains(value) {
        assert(all[bounds.len() as int].spec_contains(value));
    }
    if union_contains(all, value) {
        let i = choose|i: int| 0 <= i < all.len() && #[trigger] all[i].spec_contains(value);
        if i < bounds.len() {
            assert(bounds[i].spec_contains(value));
        }
    }
}

proof fn union_concat(a: Seq<Bounds>, b: Seq<Bounds>, value: Scalar)
    ensures
        union_contains(a + b, value) == (union_contains(a, value) || union_contains(b, value)),
{
    let all = a + b;
    if union_contains(a, value) {
        let i = choose|i: int| 0 <= i < a.len() && #[trigger] a[i].spec_contains(value);
        assert(all[i].spec_contains(value));
    }
    if union_contains(b, value) {
        let i = choose|i: int| 0 <= i < b.len() && #[trigger] b[i].spec_contains(value);
        assert(all[a.len() + i].spec_contains(value));
    }
    if union_contains(all, value) {
        let i = choose|i: int| 0 <= i < all.len() && #[trigger] all[i].spec_contains(value);
        if i < a.len() {
            assert(a[i].spec_contains(value));
        } else {
            assert(b[i - a.len()].spec_contains(value));
        }
    }
}

proof fn joined_keeps_union(current: Bounds, rest: Seq<Bounds>, value: Scalar)
    requires
        current.is_numeric(),
        all_numeric(rest),
        !value.spec_is_nan(),
    ensures
        union_contains(joined(current, rest), value) == (current.spec_contains(value)
            || union_contains(rest, value)),
        all_numeric(joined(current, rest)),
        current.lower is Some && current.upper is Some && all_bounded(rest) ==> all_bounded(
            joined(current, rest),
        ),
    decreases rest.len(),
{
    if rest.len() == 0 {
        let out = seq![current];
        assert(out =~= Seq::<Bounds>::empty().push(current));
        union_push(Seq::<Bounds>::empty(), current, value);
    } else {
        let tail = rest.drop_first();
        assert(rest =~= seq![rest[0]] + tail);
        union_concat(seq![rest[0]], tail, value);
        assert(seq![rest[0]] =~= Seq::<Bounds>::empty().push(rest[0]));
        union_push(Seq::<Bounds>::empty(), rest[0], value);
        assert(forall|i: int| 0 <= i < tail.len() ==> #[trigger] tail[i] == rest[i + 1]);
        if !meet(current, rest[0]) {
            joined_keeps_union(rest[0], tail, value);
            assert(seq![current] =~= Seq::<Bounds>::empty().push(current));
            union_push(Seq::<Bounds>::empty(), current, value);
            union_concat(seq![current], joined(rest[0], tail), value);
        } else {
            hull_is_union(current, rest[0], value);
            joined_keeps_union(hull(current, rest[0]), tail, value);
        }
    }
}

proof fn by_start_keeps_union(bounds: Seq<Bounds>, value: Scalar)
    ensures
        by_start(bounds).len() == bounds.len(),
        union_contains(by_start(bounds), value) == union_contains(bounds, value),
        all_numeric(bounds) ==> all_numeric(by_start(bounds)),
        all_bounded(bounds) ==> all_bounded(by_start(bounds)),
        all_in_order(bounds) ==> all_in_order(by_start(bounds)),
{
    let keys = start_ranks(bounds);
    stable_order_exists(keys);
    let order = order_of(keys);
    stable_order_is_permutation(keys, order);
    let sorted = by_start(bounds);
    assert forall|i: int| 0 <= i < sorted.len() implies #[trigger] sorted[i] == bounds[order[i]]
        && 0 <= order[i] < bounds.len() by {}
    if union_contains(sorted, value) {
        let i = choose|i: int| 0 <= i < sorted.len() && #[trigger] sorted[i].spec_contains(value);
        assert(bounds[order[i]].spec_contains(value));
    }
    if union_contains(bounds, value) {
        let p = choose|p: int| 0 <= p < bounds.len() && #[trigger] bounds[p].spec_contains(value);
        assert(order.contains(p));
        let i = choose|i: int| 0 <= i < order.len() && order[i] == p;
        assert(sorted[i].spec_contains(value));
    }
}

/// Normalising a union changes no membership.
pub proof fn normal_form_keeps_union(bounds: Seq<Bounds>, value: Scalar)
    requires
        all_numeric(bounds),
        !value.spec_is_nan(),
    ensures
        union_contains(normal_form(bounds), value) == union_contains(bounds, value),
        all_numeric(normal_form(bounds)),
        all_bounded(bounds) ==> all_bounded(normal_form(bounds)),
{
    by_start_keeps_union(bounds, value);
    let sorted = by_start(bounds);
    if sorted.len() > 0 {
        let tail = sorted.drop_first();
        assert(forall|i: int| 0 <= i < tail.len() ==> #[trigger] tail[i] == sorted[i + 1]);
        joined_keeps_union(sorted[0], tail, value);
        assert(sorted =~= seq![sorted[0]] + tail);
        union_concat(seq![sorted[0]], tail, value);
        assert(seq![sorted[0]] =~= Seq::<Bounds>::empty().push(sorted[0]));
        union_push(Seq::<Bounds>::empty(), sorted[0], value);
    }
}

proof fn overlaps_with_is_conjunction(a: Bounds, others: Seq<Bounds>, value: Scalar)
    requires
        a.is_numeric(),
        all_numeric(others),
        !value.spec_is_nan(),
        forall|j: int| 0 <= j < others.len() ==> !(a.is_open() && #[trigger] others[j].is_open()),
    ensures
        union_contains(overlaps_with(a, others), value) == (a.spec_contains(value)
            && union_contains(others, value)),
        all_numeric(overlaps_with(a, others)),
        a.lower is Some && a.upper is Some ==> all_bounded(overlaps_with(a, others)),
    decreases others.len(),
{
    if others.len() > 0 {
        let init = others.drop_last();
        assert forall|j: int| 0 <= j < init.len() implies !(a.is_open()
            && #[trigger] init[j].is_open()) by {
            assert(init[j] == others[j]);
        }
        assert(forall|j: int| 0 <= j < init.len() ==> #[trigger] init[j] == others[j]);
        overlaps_with_is_conjunction(a, init, value);
        assert(others =~= init.push(others.last()));
        union_push(init, others.last(), value);
        overlap_is_conjunction(a, others.last(), value);
        union_push(overlaps_with(a, init), overlap(a, others.last()), value);
    }
}

proof fn overlaps_is_conjunction(left: Seq<Bounds>, right: Seq<Bounds>, value: Scalar)
    requires
        all_numeric(left),
        all_numeric(right),
        !value.spec_is_nan(),
        forall|i: int, j: int|
            0 <= i < left.len() && 0 <= j < right.len() ==> !(#[trigger] left[i].is_open()
                && #[trigger] right[j].is_open()),
    ensures
        union_contains(overlaps(left, right), value) == (union_contains(left, value)
            && union_contains(right, value)),
        all_numeric(overlaps(left, right)),
        all_bounded(left) ==> all_bounded(overlaps(left, right)),
    decreases left.len(),
{
    if left.len() > 0 {
        let init = left.drop_last();
        assert(forall|i: int| 0 <= i < init.len() ==> #[trigger] init[i] == left[i]);
        assert forall|i: int, j: int| 0 <= i < init.len() && 0 <= j < right.len() implies !(
        #[trigger] init[i].is_open() && #[trigger] right[j].is_open()) by {
            assert(init[i] == left[i]);
        }
        overlaps_is_conjunction(init, right, value);
        assert(left =~= init.push(left.last()));
        union_push(init, left.last(), value);
        assert(left[left.len() - 1] == left.last());
        overlaps_with_is_conjunction(left.last(), right, value);
        union_concat(overlaps(init, right), overlaps_with(left.last(), right), value);
    }
}

/// A value lies in an intersection exactly when it lies in both unions. A
/// pair of intervals open on both sides is left out: their overlap reads as
/// no overlap.
pub proof fn intersection_is_conjunction(left: Seq<Bounds>, right: Seq<Bounds>, value: Scalar)
    requires
        all_numeric(left),
        all_numeric(right),
        !value.spec_is_nan(),
        forall|i: int, j: int|
            0 <= i < left.len() && 0 <= j < right.len() ==> !(#[trigger] left[i].is_open()
                && #[trigger] right[j].is_open()),
    ensures
        union_contains(intersection(left, right), value) == (union_contains(left, value)
            && union_contains(right, value)),
        all_numeric(intersection(left, right)),
        all_bounded(left) ==> all_bounded(intersection(left, right)),
{
    overlaps_is_conjunction(left, right, value);
    normal_form_keeps_union(overlaps(left, right), value);
}

/// The effective bounds hold a value exactly when the rated bounds and every
/// queued augmentation do.
pub proof fn effective_is_conjunction(rated: Seq<Bounds>, augs: Seq<Aug>, value: Scalar)
    requires
        all_numeric(rated),
        all_bounded(rated),
        forall|i: int| 0 <= i < augs.len() ==> all_numeric(#[trigger] augs[i].bounds@),
        !value.spec_is_nan(),
    ensures
        union_contains(narrowed(rated, augs), value) == (union_contains(rated, value) && forall|
            i: int,
        |
            0 <= i < augs.len() ==> union_contains(#[trigger] augs[i].bounds@, value)),
        all_numeric(narrowed(rated, augs)),
        all_bounded(narrowed(rated, augs)),
    decreases augs.len(),
{
    if augs.len() > 0 {
        let init = augs.drop_last();
        assert(forall|i: int| 0 <= i < init.len() ==> #[trigger] init[i] == augs[i]);
        assert forall|i: int| 0 <= i < init.len() implies all_numeric(
            #[trigger] init[i].bounds@,
        ) by {
            assert(init[i] == augs[i]);
        }
        effective_is_conjunction(rated, init, value);
        let last = augs[augs.len() - 1].bounds@;
        intersection_is_conjunction(narrowed(rated, init), last, value);
        let held = union_contains(narrowed(rated, augs), value);
        if held {
            assert forall|i: int| 0 <= i < augs.len() implies union_contains(
                #[trigger] augs[i].bounds@,
                value,
            ) by {
                if i < init.len() {
                    assert(union_contains(init[i].bounds@, value));
                }
            }
        }
        if union_contains(rated, value) && (forall|i: int|
            0 <= i < augs.len() ==> union_contains(#[trigger] augs[i].bounds@, value)) {
            assert forall|i: int| 0 <= i < init.len() implies union_contains(
                #[trigger] init[i].bounds@,
                value,
            ) by {
                assert(init[i] == augs[i]);
            }
            assert(union_contains(last, value));
        }
    }
}

proof fn joined_stays_in_order(current: Bounds, rest: Seq<Bounds>)
    requires
        current.is_in_order(),
        all_in_order(rest),
    ensures
        all_in_order(joined(current, rest)),
    decreases rest.len(),
{
    if rest.len() > 0 {
        let tail = rest.drop_first();
        assert(forall|i: int| 0 <= i < tail.len() ==> #[trigger] tail[i] == rest[i + 1]);
        if !meet(current, rest[0]) {
            joined_stays_in_order(rest[0], tail);
        } else {
            joined_stays_in_order(hull(current, rest[0]), tail);
        }
    }
}

proof fn overlap_is_in_order(a: Bounds, b: Bounds)
    requires
        a.is_firm() || (a.lower is Some && a.upper is Some && b.is_firm()),
    ensures
        overlap(a, b).is_open() || overlap(a, b).is_in_order(),
{
}

proof fn overlaps_with_in_order(a: Bounds, others: Seq<Bounds>)
    requires
        a.is_firm() || (a.lower is Some && a.upper is Some && all_firm(others)),
    ensures
        all_in_order(overlaps_with(a, others)),
    decreases others.len(),
{
    if others.len() > 0 {
        let init = others.drop_last();
        assert(forall|i: int| 0 <= i < init.len() ==> #[trigger] init[i] == others[i]);
        assert(others.last() == others[others.len() - 1]);
        overlaps_with_in_order(a, init);
        overlap_is_in_order(a, others.last());
    }
}

proof fn overlaps_in_order(left: Seq<Bounds>, right: Seq<Bounds>)
    requires
        all_firm(left) || (all_bounded(left) && all_firm(right)),
    ensures
        all_in_order(overlaps(left, right)),
    decreases left.len(),
{
    if left.len() > 0 {
        let init = left.drop_last();
        assert(forall|i: int| 0 <= i < init.len() ==> #[trigger] init[i] == left[i]);
        assert(left.last() == left[left.len() - 1]);
        overlaps_in_order(init, right);
        overlaps_with_in_order(left.last(), right);
    }
}

/// Where one of two unions is made of intervals whose sides are numbers, and
/// the first one has no open side, no interval of their intersection is
/// inverted, open or NaN.
pub proof fn intersection_is_in_order(left: Seq<Bounds>, right: Seq<Bounds>)
    requires
        all_firm(left) || (all_bounded(left) && all_firm(right)),
    ensures
        all_in_order(intersection(left, right)),
{
    overlaps_in_order(left, right);
    let all = overlaps(left, right);
    by_start_keeps_union(all, zero());
    let sorted = by_start(all);
    if sorted.len() > 0 {
        let tail = sorted.drop_first();
        assert(forall|i: int| 0 <= i < tail.len() ==> #[trigger] tail[i] == sorted[i + 1]);
        joined_stays_in_order(sorted[0], tail);
    }
}

/// Augmentations leave the sides of the effective bounds numbers.
pub proof fn effective_stays_firm(rated: Seq<Bounds>, augs: Seq<Aug>)
    requires
        all_firm(rated),
    ensures
        all_firm(narrowed(rated, augs)),
    decreases augs.len(),
{
    if augs.len() > 0 {
        effective_stays_firm(rated, augs.drop_last());
        intersection_is_in_order(narrowed(rated, augs.drop_last()), augs.last().bounds@);
        let left = narrowed(rated, augs);
        assert forall|i: int| 0 <= i < left.len() implies #[trigger] left[i].is_firm() by {
            assert(left[i].is_in_order());
        }
    }
}

proof fn last_upper_is_a_side(bounds: Seq<Bounds>)
    ensures
        last_upper(bounds) matches Some(u) ==> exists|i: int|
            0 <= i < bounds.len() && (#[trigger] bounds[i]).upper == Some(u),
        last_upper(bounds) is None ==> forall|i: int|
            0 <= i < bounds.len() ==> (#[trigger] bounds[i]).upper is None,
    decreases bounds.len(),
{
    if bounds.len() > 0 {
        let init = bounds.drop_last();
        last_upper_is_a_side(init);
        assert(forall|i: int| 0 <= i < init.len() ==> #[trigger] init[i] == bounds[i]);
        assert(bounds.last() == bounds[bounds.len() - 1]);
        if bounds.last().upper is None {
            if let Some(u) = last_upper(init) {
                let i = choose|i: int|
                    0 <= i < init.len() && (#[trigger] init[i]).upper == Some(u);
                assert(bounds[i].upper == Some(u));
            } else {
                assert forall|i: int| 0 <= i < bounds.len() implies (
                #[trigger] bounds[i]).upper is None by {
                    if i < init.len() {
                        assert(init[i].upper is None);
                    }
                }
            }
        }
    }
}

proof fn first_above_is_least(bounds: Seq<Bounds>, value: Scalar)
    ensures
        0 <= first_above(bounds, value) <= bounds.len(),
        first_above(bounds, value) < bounds.len() ==> (
        bounds[first_above(bounds, value)].lower matches Some(l) && value.spec_below(l)),
        forall|i: int|
            0 <= i < first_above(bounds, value) ==> ((#[trigger] bounds[i]).lower matches Some(l)
                ==> !value.spec_below(l)),
    decreases bounds.len(),
{
    if bounds.len() > 0 {
        let init = bounds.drop_last();
        first_above_is_least(init, value);
        let k = first_above(bounds, value);
        assert forall|i: int| 0 <= i < k implies ((#[trigger] bounds[i]).lower matches Some(l)
            ==> !value.spec_below(l)) by {
            if i < init.len() {
                assert(init[i] == bounds[i]);
            }
        }
    }
}

/// Clamping to a union of intervals, none of which is inverted, lands inside
/// the union.
pub proof fn clamp_lands_inside<F: Fn(Scalar, Scalar, Scalar) -> bool>(
    bounds: Seq<Bounds>,
    value: Scalar,
    nearer: F,
    out: Scalar,
)
    requires
        bounds.len() > 0,
        all_numeric(bounds),
        !value.spec_is_nan(),
        forall|i: int|
            0 <= i < bounds.len() ==> match ((#[trigger] bounds[i]).lower, bounds[i].upper) {
                (Some(l), Some(u)) => !u.spec_below(l),
                _ => true,
            },
        clamped(bounds, value, nearer, out),
    ensures
        union_contains(bounds, out),
{
    let k = first_above(bounds, value);
    first_above_is_least(bounds, value);
    if !union_contains(bounds, value) {
        if k == bounds.len() {
            last_upper_is_a_side(bounds);
            match last_upper(bounds) {
                Some(u) => {
                    let i = choose|i: int|
                        0 <= i < bounds.len() && (#[trigger] bounds[i]).upper == Some(u);
                    assert(bounds[i].is_numeric());
                    assert(bounds[i].spec_contains(u));
                },
                None => {
                    assert(bounds[0].spec_contains(value));
                },
            }
        } else {
            assert(bounds[k].is_numeric());
            assert(bounds[k].spec_contains(bounds[k].lower->0));
            let head = bounds.subrange(0, k);
            last_upper_is_a_side(head);
            if let Some(u) = last_upper(head) {
                let i = choose|i: int|
                    0 <= i < head.len() && (#[trigger] head[i]).upper == Some(u);
                assert(bounds[i].upper == Some(u));
                assert(bounds[i].is_numeric());
                assert(bounds[i].spec_contains(u));
            }
        }
    }
}

/// Once the augmentations that have run out are dropped, the effective bounds
/// hold a value exactly when the rated bounds and every augmentation still
/// live do.
pub proof fn only_live_augmentations_narrow(
    before: ComponentBounds,
    after: ComponentBounds,
    now: Moment,
    value: Scalar,
)
    requires
        all_numeric(before.rated@),
        all_bounded(before.rated@),
        forall|i: int|
            0 <= i < before.augmented@.len() ==> all_numeric(
                #[trigger] before.augmented@[i].bounds@,
            ),
        !value.spec_is_nan(),
        after.is_pruned(before, now),
    ensures
        union_contains(after.spec_effective(), value) == (union_contains(before.rated@, value)
            && forall|i: int|
            0 <= i < before.augmented@.len() && !before.augmented@[i].is_expired(now)
                ==> union_contains(#[trigger] before.augmented@[i].bounds@, value)),
{
    let all = before.augmented@;
    let live = |a: Aug| !a.is_expired(now);
    let kept = all.filter(live);
    assert(after.augmented@ == kept);
    filter_origins(all, live);
    assert forall|k: int| 0 <= k < kept.len() implies all_numeric(#[trigger] kept[k].bounds@) by {
        let i = choose|i: int| 0 <= i < all.len() && #[trigger] all[i] == kept[k];
        assert(all_numeric(all[i].bounds@));
    }
    effective_is_conjunction(before.rated@, kept, value);
    if union_contains(after.spec_effective(), value) {
        assert forall|i: int|
            0 <= i < all.len() && !all[i].is_expired(now) implies union_contains(
            #[trigger] all[i].bounds@,
            value,
        ) by {
            assert(live(all[i]));
            let k = choose|k: int| 0 <= k < kept.len() && #[trigger] kept[k] == all[i];
            assert(union_contains(kept[k].bounds@, value));
        }
    }
    if union_contains(before.rated@, value) && (forall|i: int|
        0 <= i < all.len() && !all[i].is_expired(now) ==> union_contains(
            #[trigger] all[i].bounds@,
            value,
        )) {
        assert forall|k: int| 0 <= k < kept.len() implies union_contains(
            #[trigger] kept[k].bounds@,
            value,
        ) by {
            let i = choose|i: int| 0 <= i < all.len() && #[trigger] all[i] == kept[k];
            assert(live(kept[k]));
            assert(union_contains(all[i].bounds@, value));
        }
    }
}

/// What a filter keeps is what it lets through.
proof fn filter_origins(all: Seq<Aug>, live: spec_fn(Aug) -> bool)
    ensures
        forall|k: int|
            0 <= k < all.filter(live).len() ==> live(#[trigger] all.filter(live)[k]) && exists|
                i: int,
            |
                0 <= i < all.len() && #[trigger] all[i] == all.filter(live)[k],
        forall|i: int|
            0 <= i < all.len() && live(#[trigger] all[i]) ==> exists|k: int|
                0 <= k < all.filter(live).len() && #[trigger] all.filter(live)[k] == all[i],
    decreases all.len(),
{
    reveal(Seq::filter);
    if all.len() > 0 {
        let init = all.drop_last();
        filter_origins(init, live);
        let kept = all.filter(live);
        let fewer = init.filter(live);
        assert forall|k: int| 0 <= k < kept.len() implies live(#[trigger] kept[k]) && exists|
            i: int,
        |
            0 <= i < all.len() && #[trigger] all[i] == kept[k] by {
            if k < fewer.len() {
                assert(kept[k] == fewer[k]);
                let i = choose|i: int| 0 <= i < init.len() && #[trigger] init[i] == fewer[k];
                assert(all[i] == kept[k]);
            } else {
                assert(all[all.len() - 1] == kept[k]);
            }
        }
        assert forall|i: int| 0 <= i < all.len() && live(#[trigger] all[i]) implies exists|k: int|
            0 <= k < kept.len() && #[trigger] kept[k] == all[i] by {
            if i < init.len() {
                assert(live(init[i]));
                let k = choose|k: int| 0 <= k < fewer.len() && #[trigger] fewer[k] == init[i];
                assert(kept[k] == all[i]);
            } else {
                assert(kept[kept.len() - 1] == all[i]);
            }
        }
    }
}

/// The sides that are present are finite, and the interval is not inverted.
pub open spec fn is_proper(b: Bounds) -> bool {
    &&& b.lower matches Some(l) ==> l.spec_is_finite()
    &&& b.upper matches Some(u) ==> u.spec_is_finite()
    &&& b.lower is Some && b.upper is Some ==> b.lower->0.spec_at_most(b.upper->0)
}

pub open spec fn all_proper(bounds: Seq<Bounds>) -> bool {
    forall|i: int| 0 <= i < bounds.len() ==> is_proper(#[trigger] bounds[i])
}

/// `a` ends before `b` starts.
pub open spec fn precedes(a: Bounds, b: Bounds) -> bool {
    a.upper is Some && b.lower is Some && a.upper->0.spec_below(b.lower->0)
}

/// Every interval ends before the next ones start.
pub open spec fn all_apart(bounds: Seq<Bounds>) -> bool {
    forall|i: int, j: int| 0 <= i < j < bounds.len() ==> #[trigger] precedes(bounds[i], bounds[j])
}

proof fn unmet_precedes(a: Bounds, b: Bounds)
    requires
        is_proper(a),
        is_proper(b),
        a.start_rank() <= b.start_rank(),
        !meet(a, b),
    ensures
        precedes(a, b),
{
}

proof fn met_hull_is_proper(a: Bounds, b: Bounds)
    requires
        is_proper(a),
        is_proper(b),
        a.start_rank() <= b.start_rank(),
    ensures
        is_proper(hull(a, b)),
        hull(a, b).start_rank() == a.start_rank(),
{
}

proof fn joined_is_apart(current: Bounds, rest: Seq<Bounds>)
    requires
        is_proper(current),
        all_proper(rest),
        forall|i: int|
            0 <= i < rest.len() ==> current.start_rank() <= (#[trigger] rest[i]).start_rank(),
        forall|i: int, j: int|
            0 <= i < j < rest.len() ==> (#[trigger] rest[i]).start_rank() <= (
            #[trigger] rest[j]).start_rank(),
    ensures
        all_proper(joined(current, rest)),
        all_apart(joined(current, rest)),
        forall|i: int|
            0 <= i < joined(current, rest).len() ==> current.start_rank() <= (
            #[trigger] joined(current, rest)[i]).start_rank(),
    decreases rest.len(),
{
    if rest.len() > 0 {
        let next = rest[0];
        let tail = rest.drop_first();
        assert(forall|i: int| 0 <= i < tail.len() ==> #[trigger] tail[i] == rest[i + 1]);
        if meet(current, next) {
            met_hull_is_proper(current, next);
            joined_is_apart(hull(current, next), tail);
        } else {
            unmet_precedes(current, next);
            joined_is_apart(next, tail);
            let more = joined(next, tail);
            let out = seq![current] + more;
            assert forall|i: int, j: int| 0 <= i < j < out.len() implies #[trigger] precedes(
                out[i],
                out[j],
            ) by {
                assert(out[j] == more[j - 1]);
                if i == 0 {
                    assert(next.start_rank() <= more[j - 1].start_rank());
                } else {
                    assert(precedes(more[i - 1], more[j - 1]));
                }
            }
        }
    }
}

/// A normal form is sorted and disjoint: every interval ends before the next
/// one starts.
pub proof fn normal_form_is_apart(bounds: Seq<Bounds>)
    requires
        all_proper(bounds),
    ensures
        all_apart(normal_form(bounds)),
        all_proper(normal_form(bounds)),
{
    let keys = start_ranks(bounds);
    stable_order_exists(keys);
    let order = order_of(keys);
    let sorted = by_start(bounds);
    assert forall|i: int| 0 <= i < sorted.len() implies #[trigger] sorted[i] == bounds[order[i]]
        && 0 <= order[i] < bounds.len() by {}
    assert forall|i: int, j: int| 0 <= i < j < sorted.len() implies (
    #[trigger] sorted[i]).start_rank() <= (#[trigger] sorted[j]).start_rank() by {
        assert(keys[order[i]] <= keys[order[j]]);
    }
    if sorted.len() > 0 {
        let tail = sorted.drop_first();
        assert(forall|i: int| 0 <= i < tail.len() ==> #[trigger] tail[i] == sorted[i + 1]);
        joined_is_apart(sorted[0], tail);
    }
}

/// `distance` does not shrink away from `value`, on either side of it.
pub open spec fn grows_from(distance: spec_fn(Scalar, Scalar) -> int, value: Scalar) -> bool {
    forall|near: Scalar, far: Scalar|
        #![trigger distance(near, value), distance(far, value)]
        (far.spec_at_most(near) && near.spec_at_most(value)) || (value.spec_at_most(near)
            && near.spec_at_most(far)) ==> distance(near, value) <= distance(far, value)
}

proof fn last_upper_is_last(bounds: Seq<Bounds>)
    requires
        bounds.len() > 0,
        bounds.last().upper is Some,
    ensures
        last_upper(bounds) == bounds.last().upper,
{
}

/// Clamping to disjoint intervals moves a value no farther than it has to: no
/// value of the union lies nearer than the result. `distance` measures, and
/// `nearer` decides by it.
pub proof fn clamp_lands_nearest<F: Fn(Scalar, Scalar, Scalar) -> bool>(
    bounds: Seq<Bounds>,
    value: Scalar,
    nearer: F,
    out: Scalar,
    distance: spec_fn(Scalar, Scalar) -> int,
    other: Scalar,
)
    requires
        bounds.len() > 0,
        all_proper(bounds),
        all_apart(bounds),
        !value.spec_is_nan(),
        !other.spec_is_nan(),
        grows_from(distance, value),
        forall|below: Scalar, above: Scalar, yes: bool| #[trigger]
            call_ensures(nearer, (below, value, above), yes) ==> yes == (distance(below, value)
                <= distance(above, value)),
        clamped(bounds, value, nearer, out),
        union_contains(bounds, other),
    ensures
        distance(out, value) <= distance(other, value),
{
    if union_contains(bounds, value) {
        assert(distance(value, value) <= distance(other, value));
    } else {
        let k = first_above(bounds, value);
        first_above_is_least(bounds, value);
        let i = choose|i: int| 0 <= i < bounds.len() && #[trigger] bounds[i].spec_contains(other);
        assert forall|n: int| 0 <= n < k implies (#[trigger] bounds[n]).upper is Some
            && bounds[n].upper->0.spec_below(value) by {
            assert(is_proper(bounds[n]));
            assert(!bounds[n].spec_contains(value));
        }
        assert(is_proper(bounds[i]));
        let head = bounds.subrange(0, k);
        if k > 0 {
            assert(head.last() == bounds[k - 1]);
            last_upper_is_last(head);
            assert(is_proper(bounds[k - 1]));
        }
        if k == bounds.len() {
            assert(head =~= bounds);
        } else {
            assert(is_proper(bounds[k]));
        }
        if i < k {
            if i < k - 1 {
                assert(precedes(bounds[i], bounds[k - 1]));
            }
            let edge = bounds[k - 1].upper->0;
            assert(other.spec_at_most(edge) && edge.spec_at_most(value));
            assert(distance(edge, value) <= distance(other, value));
        } else {
            if i > k {
                assert(precedes(bounds[k], bounds[i]));
            }
            let edge = bounds[k].lower->0;
            assert(value.spec_at_most(edge) && edge.spec_at_most(other));
            assert(distance(edge, value) <= distance(other, value));
        }
    }
}

/// An interval holds a number exactly where the number is at least the lower
/// side and at most the upper one; an absent side holds nothing back.
pub proof fn interval_holds_what_lies_between(b: Bounds, value: Scalar)
    requires
        b.is_numeric(),
        !value.spec_is_nan(),
    ensures
        b.spec_contains(value) == ((b.lower is Some ==> b.lower->0.spec_at_most(value)) && (
        b.upper is Some ==> value.spec_at_most(b.upper->0))),
        b.lower is Some && b.lower->0.spec_at_most(b.upper->0) && b.upper is Some
            ==> b.spec_contains(b.lower->0) && b.spec_contains(b.upper->0),
{
}

/// Intervals meet where a number lies in both: the overlap holds exactly the
/// common numbers, and the hull of intervals that meet holds the numbers of
/// both and only what lies between them.
pub proof fn overlap_and_hull_hold_what_they_should(a: Bounds, b: Bounds, value: Scalar)
    requires
        a.is_numeric(),
        b.is_numeric(),
        !value.spec_is_nan(),
    ensures
        a.spec_contains(value) && b.spec_contains(value) ==> meet(a, b) && overlap(
            a,
            b,
        ).spec_contains(value),
        meet(a, b) && overlap(a, b).spec_contains(value) ==> a.spec_contains(value)
            && b.spec_contains(value),
        a.spec_contains(value) || b.spec_contains(value) ==> hull(a, b).spec_contains(value),
        hull(a, b).lower is Some ==> hull(a, b).lower == a.lower || hull(a, b).lower == b.lower,
        hull(a, b).upper is Some ==> hull(a, b).upper == a.upper || hull(a, b).upper == b.upper,
        overlap(a, b).lower is Some ==> overlap(a, b).lower == a.lower || overlap(a, b).lower
            == b.lower,
        overlap(a, b).upper is Some ==> overlap(a, b).upper == a.upper || overlap(a, b).upper
            == b.upper,
{
}

/// A value within the envelope, and any value without an envelope, is not moved
/// by a clamp; one that lies below every interval goes to the lowest, and one
/// above every interval to the highest.
pub proof fn clamp_keeps_what_is_inside<F: Fn(Scalar, Scalar, Scalar) -> bool>(
    bounds: Seq<Bounds>,
    value: Scalar,
    nearer: F,
    out: Scalar,
)
    requires
        clamped(bounds, value, nearer, out),
    ensures
        bounds.len() == 0 ==> out == value,
        (exists|i: int| 0 <= i < bounds.len() && #[trigger] bounds[i].spec_contains(value)) ==> out
            == value,
        bounds.len() == 1 && bounds[0].is_in_order() && value.spec_below(bounds[0].lower->0) ==> out
            == bounds[0].lower->0,
        bounds.len() == 1 && bounds[0].is_in_order() && bounds[0].upper->0.spec_below(value)
            ==> out == bounds[0].upper->0,
{
    if bounds.len() == 1 {
        let none = bounds.drop_last();
        assert(none.len() == 0);
        assert(first_above(none, value) == 0);
        assert(bounds.last() == bounds[0]);
        assert(last_upper(bounds.subrange(0, 0)) is None);
        if bounds[0].is_in_order() {
            assert(last_upper(bounds) == bounds[0].upper);
            if union_contains(bounds, value) {
                let i = choose|i: int|
                    0 <= i < bounds.len() && #[trigger] bounds[i].spec_contains(value);
                assert(bounds[0].spec_contains(value));
            }
        }
    }
}

/// An augmentation holds for its lifetime, counted from when it was made, and
/// runs out right after it.
pub proof fn augmentation_lasts_its_lifetime(a: Aug, now: Moment)
    requires
        a.lifetime.nanos <= crate::time::LONGEST_DELTA,
    ensures
        a.is_expired(now) == (now.nanos - a.create_ts.nanos > a.lifetime.nanos),
{
}

/// The sum of single-interval unions adds their lower sides and their upper
/// sides, where adding is exact; a union that holds nothing adds nothing, and
/// the sum of nothing is zero.
pub proof fn sum_adds_side_by_side<F: Fn(Scalar, Scalar) -> Scalar>(
    plus: F,
    items: Seq<Seq<Bounds>>,
    out: Seq<Bounds>,
    value: spec_fn(Scalar) -> int,
)
    requires
        is_sum(plus, items, out),
        value(zero()) == 0,
        forall|a: Scalar, b: Scalar, r: Scalar| #[trigger]
            call_ensures(plus, (a, b), r) ==> value(r) == value(a) + value(b),
    ensures
        out.len() == 1,
        out[0].lower is Some && out[0].upper is Some,
        value(out[0].lower->0) == sum_of(
            items,
            |u: Seq<Bounds>|
                if u.len() > 0 && u[0].lower is Some {
                    value(u[0].lower->0)
                } else {
                    0
                },
        ),
        value(out[0].upper->0) == sum_of(
            items,
            |u: Seq<Bounds>|
                if u.len() > 0 && u[0].upper is Some {
                    value(u[0].upper->0)
                } else {
                    0
                },
        ),
        items.len() == 0 ==> out == seq![Bounds { lower: Some(zero()), upper: Some(zero()) }],
{
    let (l, u) = choose|l: Scalar, u: Scalar|
        #![trigger folds(plus, zero(), lower_sides(leading(items)), l), folds(plus, zero(), upper_sides(leading(items)), u)]
        folds(plus, zero(), lower_sides(leading(items)), l) && folds(
            plus,
            zero(),
            upper_sides(leading(items)),
            u,
        ) && out == seq![Bounds { lower: Some(l), upper: Some(u) }];
    exact_fold_adds_up(plus, zero(), lower_sides(leading(items)), l, value);
    exact_fold_adds_up(plus, zero(), upper_sides(leading(items)), u, value);
    sides_add_up(items, value);
}

proof fn sides_add_up(items: Seq<Seq<Bounds>>, value: spec_fn(Scalar) -> int)
    ensures
        sum_of(lower_sides(leading(items)), value) == sum_of(
            items,
            |u: Seq<Bounds>|
                if u.len() > 0 && u[0].lower is Some {
                    value(u[0].lower->0)
                } else {
                    0
                },
        ),
        sum_of(upper_sides(leading(items)), value) == sum_of(
            items,
            |u: Seq<Bounds>|
                if u.len() > 0 && u[0].upper is Some {
                    value(u[0].upper->0)
                } else {
                    0
                },
        ),
    decreases items.len(),
{
    if items.len() > 0 {
        let init = items.drop_last();
        let last = items.last();
        sides_add_up(init, value);
        if last.len() > 0 {
            let lead = leading(init);
            assert(leading(items).drop_last() =~= lead);
            if let Some(x) = last[0].lower {
                assert(lower_sides(leading(items)).drop_last() =~= lower_sides(lead));
            }
            if let Some(x) = last[0].upper {
                assert(upper_sides(leading(items)).drop_last() =~= upper_sides(lead));
            }
        }
    }
}

} // verus!
