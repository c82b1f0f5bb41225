//! An inverter's reactive-power capability, and the path that takes a
//! reactive set-point through its delay and slew limit.

use crate::bounds::{Bounds, VecBounds};
use crate::component::SetpointError;
use crate::ramp::{advances, CommandDelay, Ramp};
use crate::scalar::{infinity, neg_infinity, zero, Scalar};
use crate::time::{Moment, Span};
use vstd::prelude::*;

verus! {

/// Limits of the reactive power at a given active power. Each is optional,
/// and both hold where both are set.
#[derive(Clone, Copy, Debug)]
pub struct ReactiveCapability {
    /// Largest ratio of reactive to active power.
    pub pf_limit: Option<Scalar>,
    /// Largest apparent power.
    pub apparent_va: Option<Scalar>,
}

/// `(lower, upper)` narrowed to within `size` of zero.
pub open spec fn narrowed_by(range: (Scalar, Scalar), size: Option<Scalar>) -> (Scalar, Scalar) {
    match size {
        Some(q) => (range.0.spec_greater(q.spec_negated()), range.1.spec_lesser(q)),
        None => range,
    }
}

/// The range that two limits leave at the active power `p`. Where neither
/// bounds it, the reactive power may be as large as the active one; an empty
/// range collapses to zero.
pub open spec fn range_within(p: Scalar, pf: Option<Scalar>, kva: Option<Scalar>) -> (
    Scalar,
    Scalar,
) {
    let both = narrowed_by(narrowed_by((neg_infinity(), infinity()), pf), kva);
    let range = if both.0.spec_is_finite() && both.1.spec_is_finite() {
        both
    } else {
        (p.spec_absolute().spec_negated(), p.spec_absolute())
    };
    if range.1.spec_below(range.0) {
        (zero(), zero())
    } else {
        range
    }
}

/// `size` is what `op` gives for a set limit at `|p|`, and absent for one that
/// is not set.
pub open spec fn sized<F: Fn(Scalar, Scalar) -> Scalar>(
    op: F,
    limit: Option<Scalar>,
    p: Scalar,
    size: Option<Scalar>,
) -> bool {
    match limit {
        Some(l) => size is Some && call_ensures(op, (l, p.spec_absolute()), size->0),
        None => size is None,
    }
}

/// `range` bounds the reactive power at the active power `p`. `times` gives
/// the power-factor limit and `headroom` what the apparent power leaves.
pub open spec fn is_q_range<T: Fn(Scalar, Scalar) -> Scalar, H: Fn(Scalar, Scalar) -> Scalar>(
    cap: ReactiveCapability,
    p: Scalar,
    times: T,
    headroom: H,
    range: (Scalar, Scalar),
) -> bool {
    if cap.apparent_va is Some && cap.apparent_va->0.spec_at_most(p.spec_absolute()) {
        range == (zero(), zero())
    } else {
        exists|pf: Option<Scalar>, kva: Option<Scalar>|
            #![trigger sized(times, cap.pf_limit, p, pf), sized(headroom, cap.apparent_va, p, kva)]
            sized(times, cap.pf_limit, p, pf) && sized(headroom, cap.apparent_va, p, kva) && range
                == range_within(p, pf, kva)
    }
}

/// The range is never inverted, is symmetric about zero and holds it.
pub proof fn range_is_symmetric(p: Scalar, pf: Option<Scalar>, kva: Option<Scalar>)
    requires
        !p.spec_is_nan(),
    ensures
        ({
            let r = range_within(p, pf, kva);
            &&& r.0.spec_at_most(r.1)
            &&& r.0.spec_rank() == -r.1.spec_rank()
            &&& r.0.spec_at_most(zero())
            &&& zero().spec_at_most(r.1)
        }),
{
    let start = (neg_infinity(), infinity());
    let one = narrowed_by(start, pf);
    let both = narrowed_by(one, kva);
    assert(one.0.spec_rank() == -one.1.spec_rank());
    assert(!one.0.spec_is_nan() && !one.1.spec_is_nan());
    assert(both.0.spec_rank() == -both.1.spec_rank());
    assert(!both.0.spec_is_nan() && !both.1.spec_is_nan());
}

/// The sign of the active power does not matter.
pub proof fn range_ignores_sign<
    T: Fn(Scalar, Scalar) -> Scalar,
    H: Fn(Scalar, Scalar) -> Scalar,
>(cap: ReactiveCapability, p: Scalar, times: T, headroom: H, range: (Scalar, Scalar))
    requires
        is_q_range(cap, p, times, headroom, range),
    ensures
        is_q_range(cap, p.spec_negated(), times, headroom, range),
{
    let n = p.spec_negated();
    assert(n.spec_absolute() == p.spec_absolute());
    if !(cap.apparent_va is Some && cap.apparent_va->0.spec_at_most(p.spec_absolute())) {
        let (pf, kva) = choose|pf: Option<Scalar>, kva: Option<Scalar>|
            #![trigger sized(times, cap.pf_limit, p, pf), sized(headroom, cap.apparent_va, p, kva)]
            sized(times, cap.pf_limit, p, pf) && sized(headroom, cap.apparent_va, p, kva) && range
                == range_within(p, pf, kva);
        assert(sized(times, cap.pf_limit, n, pf) && sized(headroom, cap.apparent_va, n, kva));
    }
}

/// `holds` is a limit that is met by every size up to `size` and by no larger
/// one.
pub open spec fn ends_at(holds: spec_fn(Scalar) -> bool, size: Scalar) -> bool {
    forall|q: Scalar| zero().spec_at_most(q) ==> #[trigger] holds(q) == q.spec_at_most(size)
}

/// The range is as wide as the limits allow: its upper end meets every limit
/// that is set, and no size beyond it does. `ratio` and `load` say which sizes
/// meet the power-factor limit and the apparent-power limit; `times` and
/// `headroom` give where they end. Where the active power alone takes up the
/// apparent power, the range is zero.
pub proof fn range_is_widest<T: Fn(Scalar, Scalar) -> Scalar, H: Fn(Scalar, Scalar) -> Scalar>(
    cap: ReactiveCapability,
    p: Scalar,
    times: T,
    headroom: H,
    range: (Scalar, Scalar),
    ratio: spec_fn(Scalar) -> bool,
    load: spec_fn(Scalar) -> bool,
)
    requires
        !p.spec_is_nan(),
        cap.pf_limit is Some || cap.apparent_va is Some,
        cap.pf_limit matches Some(k) ==> forall|t: Scalar| #[trigger]
            call_ensures(times, (k, p.spec_absolute()), t) ==> t.spec_is_finite()
                && zero().spec_at_most(t) && ends_at(ratio, t),
        cap.apparent_va matches Some(s) ==> !s.spec_at_most(p.spec_absolute()) ==> forall|h: Scalar|
         #[trigger]
            call_ensures(headroom, (s, p.spec_absolute()), h) ==> h.spec_is_finite()
                && zero().spec_at_most(h) && ends_at(load, h),
        cap.apparent_va matches Some(s) ==> s.spec_at_most(p.spec_absolute()) ==> forall|q: Scalar|
            zero().spec_below(q) ==> !(#[trigger] load(q)),
        is_q_range(cap, p, times, headroom, range),
    ensures
        range.0.spec_rank() == -range.1.spec_rank(),
        zero().spec_at_most(range.1),
        cap.apparent_va matches Some(s) ==> if s.spec_at_most(p.spec_absolute()) {
            range == (zero(), zero())
        } else {
            load(range.1) && (cap.pf_limit is Some ==> ratio(range.1))
        },
        cap.apparent_va is None ==> ratio(range.1),
        forall|q: Scalar|
            zero().spec_at_most(q) && (cap.pf_limit is Some ==> #[trigger] ratio(q)) && (
            cap.apparent_va is Some ==> #[trigger] load(q)) ==> q.spec_at_most(range.1),
{
    if !(cap.apparent_va is Some && cap.apparent_va->0.spec_at_most(p.spec_absolute())) {
        let (pf, kva) = choose|pf: Option<Scalar>, kva: Option<Scalar>|
            #![trigger sized(times, cap.pf_limit, p, pf), sized(headroom, cap.apparent_va, p, kva)]
            sized(times, cap.pf_limit, p, pf) && sized(headroom, cap.apparent_va, p, kva) && range
                == range_within(p, pf, kva);
        range_is_symmetric(p, pf, kva);
        assert(sized(times, cap.pf_limit, p, pf) && sized(headroom, cap.apparent_va, p, kva));
        if let Some(t) = pf {
            assert(ends_at(ratio, t));
        }
        if let Some(h) = kva {
            assert(ends_at(load, h));
        }
        assert(pf is Some ==> range.1.spec_at_most(pf->0));
        assert(kva is Some ==> range.1.spec_at_most(kva->0));
        assert(ratio(range.1) || pf is None);
        assert(load(range.1) || kva is None);
    }
}

fn narrow(range: (Scalar, Scalar), size: Scalar) -> (out: (Scalar, Scalar))
    ensures
        out == narrowed_by(range, Some(size)),
{
    (range.0.greater(size.negate()), range.1.lesser(size))
}

impl ReactiveCapability {
    /// Up to 35 % of the active power, without an apparent-power limit.
    pub fn microsim_default() -> (out: Self)
        ensures
            out.pf_limit == Some(Scalar { bits: 0x3eb3_3333 }),
            out.apparent_va is None,
    {
        ReactiveCapability { pf_limit: Some(Scalar { bits: 0x3eb3_3333 }), apparent_va: None }
    }

    /// The reactive-power range at the active power `p`.
    pub fn q_bounds_at<T: Fn(Scalar, Scalar) -> Scalar, H: Fn(Scalar, Scalar) -> Scalar>(
        &self,
        p: Scalar,
        times: &T,
        headroom: &H,
    ) -> (out: (Scalar, Scalar))
        requires
            forall|a: Scalar, b: Scalar| call_requires(*times, (a, b)),
            forall|a: Scalar, b: Scalar| call_requires(*headroom, (a, b)),
        ensures
            is_q_range(*self, p, *times, *headroom, out),
            !p.spec_is_nan() ==> out.0.spec_at_most(out.1),
    {
        let size = p.absolute();
        let mut range = (neg_infinity(), infinity());
        let ghost mut pf: Option<Scalar> = None;
        let ghost mut kva: Option<Scalar> = None;
        if let Some(k) = self.pf_limit {
            let q = times(k, size);
            range = narrow(range, q);
            proof {
                pf = Some(q);
            }
        }
        if let Some(s) = self.apparent_va {
            if s.at_most(size) {
                return (zero(), zero());
            }
            let q = headroom(s, size);
            range = narrow(range, q);
            proof {
                kva = Some(q);
            }
        }
        if !range.0.is_finite() || !range.1.is_finite() {
            range = (size.negate(), size);
        }
        if range.1.below(range.0) {
            range = (zero(), zero());
        }
        proof {
            assert(sized(*times, self.pf_limit, p, pf) && sized(
                *headroom,
                self.apparent_va,
                p,
                kva,
            ));
            assert(range == range_within(p, pf, kva));
            if !p.spec_is_nan() {
                range_is_symmetric(p, pf, kva);
            }
        }
        range
    }

    /// `q` lies in the range at `p`.
    pub fn contains<T: Fn(Scalar, Scalar) -> Scalar, H: Fn(Scalar, Scalar) -> Scalar>(
        &self,
        p: Scalar,
        q: Scalar,
        times: &T,
        headroom: &H,
    ) -> (out: bool)
        requires
            forall|a: Scalar, b: Scalar| call_requires(*times, (a, b)),
            forall|a: Scalar, b: Scalar| call_requires(*headroom, (a, b)),
        ensures
            exists|range: (Scalar, Scalar)| #[trigger]
                is_q_range(*self, p, *times, *headroom, range) && out == (range.0.spec_at_most(q)
                    && q.spec_at_most(range.1)),
    {
        let range = self.q_bounds_at(p, times, headroom);
        assert(is_q_range(*self, p, *times, *headroom, range));
        range.0.at_most(q) && q.at_most(range.1)
    }
}

/// The reactive side of an inverter.
#[derive(Debug)]
pub struct ReactivePath {
    pub capability: ReactiveCapability,
    pub delay: CommandDelay,
    pub ramp: Ramp,
    /// What telemetry reports.
    pub published: Scalar,
}

impl ReactivePath {
    pub open spec fn wf(self) -> bool {
        self.delay.wf()
    }

    pub fn new(capability: ReactiveCapability, command_delay: Span, ramp_rate: Scalar) -> (out: Self)
        ensures
            out.wf(),
            out == (ReactivePath {
                capability,
                delay: CommandDelay { pending: None, armed: None, delay: command_delay },
                ramp: Ramp { actual: zero(), target: zero(), rate: ramp_rate },
                published: zero(),
            }),
    {
        ReactivePath {
            capability,
            delay: CommandDelay::new(command_delay),
            ramp: Ramp::new(ramp_rate, zero()),
            published: zero(),
        }
    }

    /// Takes a set-point within the range at the active power `p_live`, and
    /// refuses any other.
    pub fn accept_setpoint<T: Fn(Scalar, Scalar) -> Scalar, H: Fn(Scalar, Scalar) -> Scalar>(
        &mut self,
        p_live: Scalar,
        vars: Scalar,
        now: Moment,
        times: &T,
        headroom: &H,
    ) -> (out: Result<(), SetpointError>)
        requires
            old(self).wf(),
            now.in_calendar(),
            forall|a: Scalar, b: Scalar| call_requires(*times, (a, b)),
            forall|a: Scalar, b: Scalar| call_requires(*headroom, (a, b)),
        ensures
            final(self).wf(),
            exists|range: (Scalar, Scalar)| #[trigger]
                is_q_range(old(self).capability, p_live, *times, *headroom, range)
                    && if vars.spec_below(range.0) || range.1.spec_below(vars) {
                    &&& *final(self) == *old(self)
                    &&& out matches Err(SetpointError::OutOfBounds { value, envelope })
                    &&& value == vars
                    &&& envelope@ == seq![Bounds { lower: Some(range.0), upper: Some(range.1) }]
                } else {
                    &&& out is Ok
                    &&& *final(self) == (ReactivePath {
                        delay: old(self).delay.spec_commanded(now, vars),
                        ..*old(self)
                    })
                },
    {
        let range = self.capability.q_bounds_at(p_live, times, headroom);
        assert(is_q_range(old(self).capability, p_live, *times, *headroom, range));
        if vars.below(range.0) || range.1.below(vars) {
            return Err(
                SetpointError::OutOfBounds {
                    value: vars,
                    envelope: VecBounds::single(range.0, range.1),
                },
            );
        }
        self.delay.set_target(now, vars);
        Ok(())
    }

    /// One tick: an armed command becomes the target, held to the range at
    /// `p_live`; the ramp moves for `dt`, and its value is published and
    /// returned.
    pub fn step<
        T: Fn(Scalar, Scalar) -> Scalar,
        H: Fn(Scalar, Scalar) -> Scalar,
        V: Fn(Scalar, Span) -> Scalar,
        M: Fn(Scalar, Scalar) -> Scalar,
        P: Fn(Scalar, Scalar) -> Scalar,
    >(
        &mut self,
        p_live: Scalar,
        now: Moment,
        dt: Span,
        times: &T,
        headroom: &H,
        travel: &V,
        minus: &M,
        plus: &P,
    ) -> (out: Scalar)
        requires
            old(self).wf(),
            forall|a: Scalar, b: Scalar| call_requires(*times, (a, b)),
            forall|a: Scalar, b: Scalar| call_requires(*headroom, (a, b)),
            forall|r: Scalar, d: Span| call_requires(*travel, (r, d)),
            forall|a: Scalar, b: Scalar| call_requires(*minus, (a, b)),
            forall|a: Scalar, b: Scalar| call_requires(*plus, (a, b)),
        ensures
            final(self).wf(),
            final(self).capability == old(self).capability,
            final(self).delay == old(self).delay.spec_polled(now),
            out == final(self).ramp.actual,
            final(self).published == out,
            exists|aimed: Ramp| #[trigger]
                aims(
                    old(self).capability,
                    old(self).ramp,
                    final(self).delay.armed,
                    p_live,
                    *times,
                    *headroom,
                    aimed,
                ) && advances(aimed, final(self).ramp, dt, *travel, *minus, *plus),
    {
        if let Some(target) = self.delay.poll(now) {
            let range = self.capability.q_bounds_at(p_live, times, headroom);
            assert(is_q_range(old(self).capability, p_live, *times, *headroom, range));
            let held = if target.below(range.0) {
                range.0
            } else if range.1.below(target) {
                range.1
            } else {
                target
            };
            self.ramp.set_target(held);
        }
        let ghost aimed = self.ramp;
        assert(aims(
            old(self).capability,
            old(self).ramp,
            self.delay.armed,
            p_live,
            *times,
            *headroom,
            aimed,
        ));
        let actual = self.ramp.advance(dt, travel, minus, plus);
        self.published = actual;
        actual
    }

    /// Replaces the published value, where a child took less.
    pub fn override_published(&mut self, q: Scalar)
        ensures
            *final(self) == (ReactivePath { published: q, ..*old(self) }),
    {
        self.published = q;
    }

    pub fn published(&self) -> (out: Scalar)
        ensures
            out == self.published,
    {
        self.published
    }

    /// The range at the active power `p_live`.
    pub fn bounds_at<T: Fn(Scalar, Scalar) -> Scalar, H: Fn(Scalar, Scalar) -> Scalar>(
        &self,
        p_live: Scalar,
        times: &T,
        headroom: &H,
    ) -> (out: (Scalar, Scalar))
        requires
            forall|a: Scalar, b: Scalar| call_requires(*times, (a, b)),
            forall|a: Scalar, b: Scalar| call_requires(*headroom, (a, b)),
        ensures
            is_q_range(self.capability, p_live, *times, *headroom, out),
    {
        self.capability.q_bounds_at(p_live, times, headroom)
    }

    pub fn set_pf_limit(&mut self, pf: Option<Scalar>)
        ensures
            *final(self) == (ReactivePath {
                capability: ReactiveCapability { pf_limit: pf, ..old(self).capability },
                ..*old(self)
            }),
    {
        self.capability = ReactiveCapability {
            pf_limit: pf,
            apparent_va: self.capability.apparent_va,
        };
    }

    pub fn set_apparent_va(&mut self, va: Option<Scalar>)
        ensures
            *final(self) == (ReactivePath {
                capability: ReactiveCapability { apparent_va: va, ..old(self).capability },
                ..*old(self)
            }),
    {
        self.capability = ReactiveCapability {
            pf_limit: self.capability.pf_limit,
            apparent_va: va,
        };
    }

    /// Drops any command and is back at zero at once.
    pub fn reset(&mut self)
        ensures
            final(self).wf(),
            *final(self) == cleared(*old(self)),
    {
        self.delay.reset();
        self.ramp.snap_to(zero());
        self.published = zero();
    }
}

/// The path without a command, back at zero.
pub open spec fn cleared(path: ReactivePath) -> ReactivePath {
    ReactivePath {
        capability: path.capability,
        delay: CommandDelay { pending: None, armed: None, delay: path.delay.delay },
        ramp: Ramp { actual: zero(), target: zero(), rate: path.ramp.rate },
        published: zero(),
    }
}

/// `aimed` is `ramp` with the armed command as its target, held to the range
/// at `p`; unchanged where none is armed.
pub open spec fn aims<T: Fn(Scalar, Scalar) -> Scalar, H: Fn(Scalar, Scalar) -> Scalar>(
    cap: ReactiveCapability,
    ramp: Ramp,
    armed: Option<Scalar>,
    p: Scalar,
    times: T,
    headroom: H,
    aimed: Ramp,
) -> bool {
    match armed {
        Some(target) => exists|range: (Scalar, Scalar)| #[trigger]
            is_q_range(cap, p, times, headroom, range) && aimed
                == (Ramp { target: target.spec_clamped(range.0, range.1), ..ramp }),
        None => aimed == ramp,
    }
}

/// Without any limit, the reactive power may be as large as the active one.
pub proof fn unlimited_range_is_the_active_power<
    T: Fn(Scalar, Scalar) -> Scalar,
    H: Fn(Scalar, Scalar) -> Scalar,
>(cap: ReactiveCapability, p: Scalar, times: T, headroom: H, range: (Scalar, Scalar))
    requires
        !p.spec_is_nan(),
        cap.pf_limit is None,
        cap.apparent_va is None,
        is_q_range(cap, p, times, headroom, range),
    ensures
        range.1 == p.spec_absolute(),
        range.0 == p.spec_absolute().spec_negated(),
{
}

/// With one limit that is set and finite, the range reaches from minus to plus
/// what that limit leaves.
pub proof fn one_limit_gives_the_range<
    T: Fn(Scalar, Scalar) -> Scalar,
    H: Fn(Scalar, Scalar) -> Scalar,
>(cap: ReactiveCapability, p: Scalar, times: T, headroom: H, range: (Scalar, Scalar), size: Scalar)
    requires
        !p.spec_is_nan(),
        size.spec_is_finite(),
        zero().spec_at_most(size),
        is_q_range(cap, p, times, headroom, range),
    ensures
        cap.apparent_va is None && (cap.pf_limit matches Some(k) && forall|t: Scalar| #[trigger]
            call_ensures(times, (k, p.spec_absolute()), t) ==> t == size) ==> range.1 == size
            && range.0 == size.spec_negated(),
        cap.pf_limit is None && (cap.apparent_va matches Some(s) && !s.spec_at_most(
            p.spec_absolute(),
        ) && forall|h: Scalar| #[trigger]
            call_ensures(headroom, (s, p.spec_absolute()), h) ==> h == size) ==> range.1 == size
            && range.0 == size.spec_negated(),
{
}

/// An armed reactive command is aimed at where the range allows it and moved to
/// the nearer end where it does not; without one the ramp is left alone.
pub proof fn reactive_command_is_aimed_at<
    T: Fn(Scalar, Scalar) -> Scalar,
    H: Fn(Scalar, Scalar) -> Scalar,
>(
    cap: ReactiveCapability,
    ramp: Ramp,
    armed: Option<Scalar>,
    p: Scalar,
    times: T,
    headroom: H,
    aimed: Ramp,
)
    requires
        aims(cap, ramp, armed, p, times, headroom, aimed),
    ensures
        aimed.actual == ramp.actual,
        aimed.rate == ramp.rate,
        armed is None ==> aimed.target == ramp.target,
        armed matches Some(target) ==> exists|range: (Scalar, Scalar)| #[trigger]
            is_q_range(cap, p, times, headroom, range) && (range.0.spec_at_most(target)
                && target.spec_at_most(range.1) ==> aimed.target == target) && (target.spec_below(
                range.0,
            ) ==> aimed.target == range.0) && (range.1.spec_below(target) && !target.spec_below(
                range.0,
            ) ==> aimed.target == range.1),
{
}

/// A reset leaves no command and no reactive power, and the limits as they
/// were.
pub proof fn reset_path_is_idle(path: ReactivePath, now: Moment)
    ensures
        cleared(path).delay.spec_polled(now).armed is None,
        cleared(path).delay.pending is None,
        cleared(path).ramp.actual == zero(),
        cleared(path).ramp.target == zero(),
        cleared(path).published == zero(),
        cleared(path).capability == path.capability,
        cleared(path).ramp.rate == path.ramp.rate,
        cleared(path).delay.delay == path.delay.delay,
{
}

} // verus!
