//! Battery and solar inverters.

use crate::ac::{ac_telemetry, is_ac_only, reads_ac, Phases};
use crate::battery::{power_to_state, state_text};
use crate::bounds::{clamped, union_contains, Aug, Bounds, ComponentBounds, VecBounds};
use crate::component::{numbered_name, Category, SetpointError, Telemetry};
use crate::fold::{exact_fold_adds_up, folds, folds_push, sum_of};
use crate::ramp::{advances, arrived_ramp_stays, CommandDelay, Ramp};
use crate::reactive::{aims, cleared, is_q_range, ReactiveCapability, ReactivePath};
use crate::scalar::{hundred, infinity, zero, Scalar};
use crate::site::GridState;
use crate::text::decimal_text;
use crate::time::{in_calendar, Moment, Span};
use crate::timeouts::SetpointAxis;
use vstd::prelude::*;

verus! {

/// What an inverter answers to an active set-point: it takes one within its
/// effective envelope and refuses any other with that envelope.
pub open spec fn answers_setpoint(
    bounds: ComponentBounds,
    before: CommandDelay,
    after: CommandDelay,
    value: Scalar,
    now: Moment,
    out: Result<(), SetpointError>,
) -> bool {
    if union_contains(bounds.spec_effective(), value) {
        out is Ok && after == before.spec_commanded(now, value)
    } else {
        &&& after == before
        &&& out matches Err(SetpointError::OutOfBounds { value: v, envelope })
        &&& v == value
        &&& envelope@ == bounds.spec_effective()
    }
}

/// Takes an active set-point or refuses it.
pub fn accept_active(bounds: &ComponentBounds, delay: &mut CommandDelay, value: Scalar, now: Moment)
    -> (out: Result<(), SetpointError>)
    requires
        old(delay).wf(),
        now.in_calendar(),
    ensures
        final(delay).wf(),
        answers_setpoint(*bounds, *old(delay), *final(delay), value, now, out),
{
    let envelope = bounds.effective();
    if !envelope.contains(value) {
        return Err(SetpointError::OutOfBounds { value, envelope });
    }
    delay.set_target(now, value);
    Ok(())
}

#[derive(Clone, Copy, Debug)]
pub struct BatteryInverterConfig {
    pub rated_lower_w: Scalar,
    pub rated_upper_w: Scalar,
    pub command_delay: Span,
    /// Watts per second; infinite for none.
    pub ramp_rate_w_per_s: Scalar,
    pub stream_jitter_pct: Scalar,
    pub reactive: ReactiveCapability,
    pub reactive_command_delay: Span,
    /// Vars per second; infinite for none.
    pub reactive_ramp_rate_var_per_s: Scalar,
}

impl Default for BatteryInverterConfig {
    /// Rated 30 kW both ways and following at once; reactive power up to 35 %
    /// of the active, 100 ms late, at 2000 var/s.
    fn default() -> (out: Self)
        ensures
            out.rated_lower_w == (Scalar { bits: 0xc6ea_6000 }),
            out.rated_upper_w == (Scalar { bits: 0x46ea_6000 }),
            out.command_delay.nanos == 0,
            out.ramp_rate_w_per_s == infinity(),
            out.stream_jitter_pct == zero(),
            out.reactive.pf_limit == Some(Scalar { bits: 0x3eb3_3333 }),
            out.reactive.apparent_va is None,
            out.reactive_command_delay.nanos == 100_000_000,
            out.reactive_ramp_rate_var_per_s == (Scalar { bits: 0x44fa_0000 }),
    {
        BatteryInverterConfig {
            rated_lower_w: Scalar { bits: 0xc6ea_6000 },
            rated_upper_w: Scalar { bits: 0x46ea_6000 },
            command_delay: Span { nanos: 0 },
            ramp_rate_w_per_s: infinity(),
            stream_jitter_pct: zero(),
            reactive: ReactiveCapability::microsim_default(),
            reactive_command_delay: Span::from_millis(100),
            reactive_ramp_rate_var_per_s: Scalar { bits: 0x44fa_0000 },
        }
    }
}

/// An inverter in front of batteries. It pushes equal shares of its commanded
/// power onto them and reports what they took.
#[derive(Debug)]
pub struct BatteryInverter {
    pub id: u64,
    pub name: String,
    pub interval: Span,
    pub cfg: BatteryInverterConfig,
    pub successors: Vec<u64>,
    pub bounds: ComponentBounds,
    pub delay: CommandDelay,
    pub ramp: Ramp,
    pub reactive: ReactivePath,
    /// What the batteries took last tick.
    pub measured_w: Scalar,
}

/// `aimed` is `ramp` with the armed command as its target, clamped to the
/// envelope; unchanged where none is armed.
pub open spec fn aims_within<N: Fn(Scalar, Scalar, Scalar) -> bool>(
    bounds: ComponentBounds,
    ramp: Ramp,
    armed: Option<Scalar>,
    nearer: N,
    aimed: Ramp,
) -> bool {
    match armed {
        Some(target) => clamped(bounds.spec_effective(), target, nearer, aimed.target) && aimed == (
        Ramp { target: aimed.target, ..ramp }),
        None => aimed == ramp,
    }
}

/// The active parts of what each battery took.
pub open spec fn actives(taken: Seq<(Scalar, Scalar)>) -> Seq<Scalar> {
    taken.map_values(|t: (Scalar, Scalar)| t.0)
}

/// The reactive parts of what each battery took.
pub open spec fn reactives(taken: Seq<(Scalar, Scalar)>) -> Seq<Scalar> {
    taken.map_values(|t: (Scalar, Scalar)| t.1)
}

/// The reactive path takes its step: its armed command aims it, and it moves
/// for `dt`.
pub open spec fn reactive_steps<
    T: Fn(Scalar, Scalar) -> Scalar,
    H: Fn(Scalar, Scalar) -> Scalar,
    V: Fn(Scalar, Span) -> Scalar,
    M: Fn(Scalar, Scalar) -> Scalar,
    P: Fn(Scalar, Scalar) -> Scalar,
>(
    before: ReactivePath,
    after: ReactivePath,
    p_live: Scalar,
    now: Moment,
    dt: Span,
    times: T,
    headroom: H,
    travel: V,
    minus: M,
    plus: P,
) -> bool {
    &&& after.capability == before.capability
    &&& after.delay == before.delay.spec_polled(now)
    &&& after.published == after.ramp.actual
    &&& exists|aimed: Ramp| #[trigger]
        aims(before.capability, before.ramp, after.delay.armed, p_live, times, headroom, aimed)
            && advances(aimed, after.ramp, dt, travel, minus, plus)
}

/// A reactive path without a command whose ramp has arrived publishes where it
/// is and changes nothing else, where a value minus itself is zero and time
/// does not run backward.
pub proof fn idle_path_stays<
    T: Fn(Scalar, Scalar) -> Scalar,
    H: Fn(Scalar, Scalar) -> Scalar,
    V: Fn(Scalar, Span) -> Scalar,
    M: Fn(Scalar, Scalar) -> Scalar,
    P: Fn(Scalar, Scalar) -> Scalar,
>(
    before: ReactivePath,
    after: ReactivePath,
    p_live: Scalar,
    now: Moment,
    dt: Span,
    times: T,
    headroom: H,
    travel: V,
    minus: M,
    plus: P,
)
    requires
        before.delay.pending is None,
        before.delay.armed is None,
        before.ramp.actual == before.ramp.target,
        forall|d: Scalar|
            call_ensures(minus, (before.ramp.target, before.ramp.target), d) ==> d.spec_rank()
                == 0,
        forall|m: Scalar|
            call_ensures(travel, (before.ramp.rate, dt), m) ==> zero().spec_at_most(m),
        reactive_steps(
            before,
            after,
            p_live,
            now,
            dt,
            times,
            headroom,
            travel,
            minus,
            plus,
        ),
    ensures
        after == (ReactivePath { published: before.ramp.actual, ..before }),
{
    let aimed = choose|aimed: Ramp| #[trigger]
        aims(before.capability, before.ramp, after.delay.armed, p_live, times, headroom, aimed)
            && advances(aimed, after.ramp, dt, travel, minus, plus);
    arrived_ramp_stays(aimed, after.ramp, dt, travel, minus, plus);
}

/// What an inverter answers to a reactive set-point at an active power `p`:
/// it takes one within the range there and refuses any other with that range.
pub open spec fn answers_reactive<T: Fn(Scalar, Scalar) -> Scalar, H: Fn(Scalar, Scalar) -> Scalar>(
    before: ReactivePath,
    after: ReactivePath,
    p: Scalar,
    vars: Scalar,
    now: Moment,
    times: T,
    headroom: H,
    out: Result<(), SetpointError>,
) -> bool {
    exists|range: (Scalar, Scalar)| #[trigger]
        is_q_range(before.capability, p, times, headroom, range) && if vars.spec_below(range.0)
            || range.1.spec_below(vars) {
            &&& after == before
            &&& out matches Err(SetpointError::OutOfBounds { value, envelope })
            &&& value == vars
            &&& envelope@ == seq![Bounds { lower: Some(range.0), upper: Some(range.1) }]
        } else {
            &&& out is Ok
            &&& after == (ReactivePath {
                delay: before.delay.spec_commanded(now, vars),
                ..before
            })
        }
}

/// What the first half of an inverter's tick does: expired augmentations go,
/// armed commands aim the ramps, the ramps move, and `out` is what they
/// command.
pub open spec fn commands<
    N: Fn(Scalar, Scalar, Scalar) -> bool,
    T: Fn(Scalar, Scalar) -> Scalar,
    H: Fn(Scalar, Scalar) -> Scalar,
    V: Fn(Scalar, Span) -> Scalar,
    M: Fn(Scalar, Scalar) -> Scalar,
    P: Fn(Scalar, Scalar) -> Scalar,
>(
    before: BatteryInverter,
    after: BatteryInverter,
    now: Moment,
    dt: Span,
    nearer: N,
    times: T,
    headroom: H,
    travel: V,
    minus: M,
    plus: P,
    out: (Scalar, Scalar),
) -> bool {
    &&& after == (BatteryInverter {
        bounds: after.bounds,
        delay: after.delay,
        ramp: after.ramp,
        reactive: after.reactive,
        ..before
    })
    &&& after.bounds.is_pruned(before.bounds, now)
    &&& after.delay == before.delay.spec_polled(now)
    &&& exists|aimed: Ramp| #[trigger]
        aims_within(after.bounds, before.ramp, after.delay.armed, nearer, aimed) && advances(
            aimed,
            after.ramp,
            dt,
            travel,
            minus,
            plus,
        )
    &&& reactive_steps(
        before.reactive,
        after.reactive,
        before.measured_w,
        now,
        dt,
        times,
        headroom,
        travel,
        minus,
        plus,
    )
    &&& out == (after.ramp.actual, after.reactive.ramp.actual)
}

/// What the second half of an inverter's tick does: it reports the sum of
/// what was taken or, without batteries, what was commanded.
pub open spec fn measures<P: Fn(Scalar, Scalar) -> Scalar>(
    before: BatteryInverter,
    after: BatteryInverter,
    commanded: (Scalar, Scalar),
    taken: Seq<(Scalar, Scalar)>,
    plus: P,
) -> bool {
    &&& after == (BatteryInverter {
        measured_w: after.measured_w,
        reactive: ReactivePath { published: after.reactive.published, ..before.reactive },
        ..before
    })
    &&& if before.successors.len() == 0 {
        after.measured_w == commanded.0 && after.reactive.published == commanded.1
    } else {
        folds(plus, zero(), actives(taken), after.measured_w) && folds(
            plus,
            zero(),
            reactives(taken),
            after.reactive.published,
        )
    }
}

/// `part` is each battery's share of a commanded power: all of it without
/// batteries.
pub open spec fn shares<D: Fn(Scalar, usize) -> Scalar>(
    inverter: BatteryInverter,
    commanded: Scalar,
    over: D,
    part: Scalar,
) -> bool {
    if inverter.successors.len() == 0 {
        part == commanded
    } else {
        call_ensures(over, (commanded, inverter.successors.len()), part)
    }
}

impl BatteryInverter {
    pub open spec fn wf(self) -> bool {
        self.bounds.is_dated() && self.delay.wf() && self.reactive.wf()
    }

    pub fn new(id: u64, interval: Span, cfg: BatteryInverterConfig, successors: Vec<u64>) -> (out:
        Self)
        ensures
            out.wf(),
            out.id == id,
            out.name@ == "inv-bat-"@ + decimal_text(id as nat),
            out.interval == interval,
            out.cfg == cfg,
            out.successors == successors,
            out.bounds.rated@ == seq![
                Bounds {
                    lower: Some(cfg.rated_lower_w),
                    upper: Some(cfg.rated_upper_w),
                },
            ],
            out.bounds.augmented@ == Seq::<Aug>::empty(),
            out.delay == (CommandDelay { pending: None, armed: None, delay: cfg.command_delay }),
            out.ramp == (Ramp { actual: zero(), target: zero(), rate: cfg.ramp_rate_w_per_s }),
            out.reactive == (ReactivePath {
                capability: cfg.reactive,
                delay: CommandDelay {
                    pending: None,
                    armed: None,
                    delay: cfg.reactive_command_delay,
                },
                ramp: Ramp {
                    actual: zero(),
                    target: zero(),
                    rate: cfg.reactive_ramp_rate_var_per_s,
                },
                published: zero(),
            }),
            out.measured_w == zero(),
    {
        let name = numbered_name("inv-bat-", id);
        BatteryInverter {
            id,
            name,
            interval,
            cfg,
            successors,
            bounds: ComponentBounds::rated(cfg.rated_lower_w, cfg.rated_upper_w),
            delay: CommandDelay::new(cfg.command_delay),
            ramp: Ramp::new(cfg.ramp_rate_w_per_s, zero()),
            reactive: ReactivePath::new(
                cfg.reactive,
                cfg.reactive_command_delay,
                cfg.reactive_ramp_rate_var_per_s,
            ),
            measured_w: zero(),
        }
    }

    /// The first half of a tick: expired augmentations go, armed commands aim
    /// the ramps, and the ramps move. Returns the commanded active and
    /// reactive power.
    pub fn tick_command<
        N: Fn(Scalar, Scalar, Scalar) -> bool,
        T: Fn(Scalar, Scalar) -> Scalar,
        H: Fn(Scalar, Scalar) -> Scalar,
        V: Fn(Scalar, Span) -> Scalar,
        M: Fn(Scalar, Scalar) -> Scalar,
        P: Fn(Scalar, Scalar) -> Scalar,
    >(
        &mut self,
        now: Moment,
        dt: Span,
        nearer: &N,
        times: &T,
        headroom: &H,
        travel: &V,
        minus: &M,
        plus: &P,
    ) -> (out: (Scalar, Scalar))
        requires
            old(self).wf(),
            forall|a: Scalar, b: Scalar, c: Scalar| call_requires(*nearer, (a, b, c)),
            forall|a: Scalar, b: Scalar| call_requires(*times, (a, b)),
            forall|a: Scalar, b: Scalar| call_requires(*headroom, (a, b)),
            forall|r: Scalar, d: Span| call_requires(*travel, (r, d)),
            forall|a: Scalar, b: Scalar| call_requires(*minus, (a, b)),
            forall|a: Scalar, b: Scalar| call_requires(*plus, (a, b)),
        ensures
            final(self).wf(),
            commands(
                *old(self),
                *final(self),
                now,
                dt,
                *nearer,
                *times,
                *headroom,
                *travel,
                *minus,
                *plus,
                out,
            ),
    {
        self.bounds.drop_expired(now);
        if let Some(target) = self.delay.poll(now) {
            let held = self.bounds.clamp(target, |a: Scalar, b: Scalar, c: Scalar| -> (r: bool)
                requires
                    call_requires(*nearer, (a, b, c)),
                ensures
                    call_ensures(*nearer, (a, b, c), r),
                { nearer(a, b, c) });
            self.ramp.set_target(held);
        }
        let ghost aimed = self.ramp;
        assert(aims_within(self.bounds, old(self).ramp, self.delay.armed, *nearer, aimed));
        let p_live = self.measured_w;
        let p = self.ramp.advance(dt, travel, minus, plus);
        let q = self.reactive.step(p_live, now, dt, times, headroom, travel, minus, plus);
        (p, q)
    }

    /// How much of a commanded power each battery gets, `over` dividing by
    /// their number.
    pub fn share<D: Fn(Scalar, usize) -> Scalar>(&self, commanded: Scalar, over: &D) -> (out:
        Scalar)
        requires
            self.successors.len() > 0 ==> call_requires(
                *over,
                (commanded, self.successors.len()),
            ),
        ensures
            shares(*self, commanded, *over, out),
    {
        if self.successors.len() == 0 {
            commanded
        } else {
            over(commanded, self.successors.len())
        }
    }

    /// The second half of a tick: what the batteries took adds up to what the
    /// inverter reports. Without batteries it reports what was commanded.
    pub fn tick_measure<P: Fn(Scalar, Scalar) -> Scalar>(
        &mut self,
        commanded: (Scalar, Scalar),
        taken: &Vec<(Scalar, Scalar)>,
        plus: &P,
    )
        requires
            old(self).wf(),
            forall|a: Scalar, b: Scalar| call_requires(*plus, (a, b)),
        ensures
            final(self).wf(),
            measures(*old(self), *final(self), commanded, taken@, *plus),
    {
        if self.successors.len() == 0 {
            self.measured_w = commanded.0;
            self.reactive.override_published(commanded.1);
            return;
        }
        let mut p: Scalar = zero();
        let mut q: Scalar = zero();
        let mut i: usize = 0;
        while i < taken.len()
            invariant
                i <= taken.len(),
                forall|a: Scalar, b: Scalar| call_requires(*plus, (a, b)),
                folds(*plus, zero(), actives(taken@).take(i as int), p),
                folds(*plus, zero(), reactives(taken@).take(i as int), q),
            decreases taken.len() - i,
        {
            let (a, r) = taken[i];
            let next_p = plus(p, a);
            let next_q = plus(q, r);
            proof {
                let seen_p = actives(taken@).take(i as int);
                let seen_q = reactives(taken@).take(i as int);
                folds_push(*plus, zero(), seen_p, p, a, next_p);
                folds_push(*plus, zero(), seen_q, q, r, next_q);
                assert(actives(taken@).take(i + 1) =~= seen_p.push(a));
                assert(reactives(taken@).take(i + 1) =~= seen_q.push(r));
            }
            p = next_p;
            q = next_q;
            i = i + 1;
        }
        assert(actives(taken@).take(taken@.len() as int) =~= actives(taken@));
        assert(reactives(taken@).take(taken@.len() as int) =~= reactives(taken@));
        self.measured_w = p;
        self.reactive.override_published(q);
    }

    pub fn set_active_setpoint(&mut self, power_w: Scalar, now: Moment) -> (out: Result<
        (),
        SetpointError,
    >)
        requires
            old(self).wf(),
            now.in_calendar(),
        ensures
            final(self).wf(),
            *final(self) == (BatteryInverter { delay: final(self).delay, ..*old(self) }),
            answers_setpoint(
                old(self).bounds,
                old(self).delay,
                final(self).delay,
                power_w,
                now,
                out,
            ),
    {
        accept_active(&self.bounds, &mut self.delay, power_w, now)
    }

    /// Without any command.
    pub open spec fn spec_reset(self) -> BatteryInverter {
        BatteryInverter {
            delay: CommandDelay { pending: None, armed: None, delay: self.delay.delay },
            ramp: Ramp { actual: zero(), target: zero(), rate: self.ramp.rate },
            reactive: cleared(self.reactive),
            measured_w: zero(),
            ..self
        }
    }

    /// Drops every command and is back at zero at once.
    pub fn reset_setpoint(&mut self)
        requires
            old(self).wf(),
        ensures
            final(self).wf(),
            *final(self) == old(self).spec_reset(),
    {
        self.delay.reset();
        self.ramp.snap_to(zero());
        self.reactive.reset();
        self.measured_w = zero();
    }

    /// Without its active command: back at zero.
    pub open spec fn spec_reset_active(self) -> BatteryInverter {
        BatteryInverter {
            delay: CommandDelay { pending: None, armed: None, delay: self.delay.delay },
            ramp: Ramp { actual: zero(), target: zero(), rate: self.ramp.rate },
            measured_w: zero(),
            ..self
        }
    }

    /// Without its reactive command.
    pub open spec fn spec_reset_reactive(self) -> BatteryInverter {
        BatteryInverter { reactive: cleared(self.reactive), ..self }
    }

    /// Drops the command of one axis and leaves the other one running.
    pub fn reset_setpoint_axis(&mut self, axis: SetpointAxis)
        requires
            old(self).wf(),
        ensures
            final(self).wf(),
            *final(self) == (match axis {
                SetpointAxis::Active => old(self).spec_reset_active(),
                SetpointAxis::Reactive => old(self).spec_reset_reactive(),
            }),
    {
        match axis {
            SetpointAxis::Active => {
                self.delay.reset();
                self.ramp.snap_to(zero());
                self.measured_w = zero();
            },
            SetpointAxis::Reactive => {
                self.reactive.reset();
            },
        }
    }

    /// Narrows the envelope for a time.
    pub fn augment_active_bounds(&mut self, ts: Moment, bounds: VecBounds, lifetime: Span)
        requires
            old(self).wf(),
            in_calendar(ts.nanos + lifetime.spec_delta()),
        ensures
            final(self).wf(),
            *final(self) == (BatteryInverter { bounds: final(self).bounds, ..*old(self) }),
            final(self).bounds.rated == old(self).bounds.rated,
            final(self).bounds.augmented@ == old(self).bounds.augmented@.push(
                Aug { create_ts: ts, bounds, lifetime },
            ),
    {
        self.bounds.add_augmentation(ts, bounds, lifetime);
    }

    /// What the inverter reports: the measured output, its own envelope, and
    /// the reactive range at that output.
    pub fn telemetry<
        S: Fn(Scalar, Phases) -> Phases,
        C: Fn(Phases, Phases, Phases) -> Phases,
        T: Fn(Scalar, Scalar) -> Scalar,
        H: Fn(Scalar, Scalar) -> Scalar,
    >(&self, grid: &GridState, split: &S, current: &C, times: &T, headroom: &H) -> (out: Telemetry)
        requires
            forall|a: Scalar, v: Phases| call_requires(*split, (a, v)),
            forall|a: Phases, b: Phases, v: Phases| call_requires(*current, (a, b, v)),
            forall|a: Scalar, b: Scalar| call_requires(*times, (a, b)),
            forall|a: Scalar, b: Scalar| call_requires(*headroom, (a, b)),
        ensures
            out.id == self.id,
            out.category == Some(Category::Inverter),
            reads_ac(out, self.measured_w, self.reactive.published, *grid, *split, *current),
            is_ac_only(out),
            out.active_power_bounds is Some,
            out.active_power_bounds->0@ == self.bounds.spec_effective(),
            out.reactive_power_bounds is Some,
            is_q_range(
                self.reactive.capability,
                self.measured_w,
                *times,
                *headroom,
                out.reactive_power_bounds->0,
            ),
            out.component_state is Some,
            out.component_state->0@ == state_text(self.measured_w),
    {
        let p = self.measured_w;
        let mut out = ac_telemetry(
            self.id,
            Category::Inverter,
            p,
            self.reactive.published(),
            grid,
            split,
            current,
        );
        out.active_power_bounds = Some(self.bounds.effective());
        out.reactive_power_bounds = Some(self.reactive.bounds_at(p, times, headroom));
        out.component_state = Some(power_to_state(p));
        out
    }

    /// Takes a reactive set-point within the range at the reported output, and
    /// refuses any other.
    pub fn set_reactive_setpoint<T: Fn(Scalar, Scalar) -> Scalar, H: Fn(Scalar, Scalar) -> Scalar>(
        &mut self,
        vars: Scalar,
        now: Moment,
        times: &T,
        headroom: &H,
    ) -> (out: Result<(), SetpointError>)
        requires
            old(self).wf(),
            now.in_calendar(),
            forall|a: Scalar, b: Scalar| call_requires(*times, (a, b)),
            forall|a: Scalar, b: Scalar| call_requires(*headroom, (a, b)),
        ensures
            final(self).wf(),
            *final(self) == (BatteryInverter { reactive: final(self).reactive, ..*old(self) }),
            answers_reactive(
                old(self).reactive,
                final(self).reactive,
                old(self).measured_w,
                vars,
                now,
                *times,
                *headroom,
                out,
            ),
    {
        let p = self.measured_w;
        self.reactive.accept_setpoint(p, vars, now, times, headroom)
    }

    /// The reactive range at the reported output.
    pub fn reactive_bounds<T: Fn(Scalar, Scalar) -> Scalar, H: Fn(Scalar, Scalar) -> Scalar>(
        &self,
        times: &T,
        headroom: &H,
    ) -> (out: (Scalar, Scalar))
        requires
            forall|a: Scalar, b: Scalar| call_requires(*times, (a, b)),
            forall|a: Scalar, b: Scalar| call_requires(*headroom, (a, b)),
        ensures
            is_q_range(self.reactive.capability, self.measured_w, *times, *headroom, out),
    {
        self.reactive.bounds_at(self.measured_w, times, headroom)
    }

    pub fn rated_active_bounds(&self) -> (out: (Scalar, Scalar))
        ensures
            out == (self.cfg.rated_lower_w, self.cfg.rated_upper_w),
    {
        (self.cfg.rated_lower_w, self.cfg.rated_upper_w)
    }

    pub fn set_reactive_pf_limit(&mut self, pf: Option<Scalar>)
        ensures
            *final(self) == (BatteryInverter {
                reactive: ReactivePath {
                    capability: ReactiveCapability {
                        pf_limit: pf,
                        ..old(self).reactive.capability
                    },
                    ..old(self).reactive
                },
                ..*old(self)
            }),
    {
        self.reactive.set_pf_limit(pf);
    }

    pub fn set_reactive_apparent_va(&mut self, va: Option<Scalar>)
        ensures
            *final(self) == (BatteryInverter {
                reactive: ReactivePath {
                    capability: ReactiveCapability {
                        apparent_va: va,
                        ..old(self).reactive.capability
                    },
                    ..old(self).reactive
                },
                ..*old(self)
            }),
    {
        self.reactive.set_apparent_va(va);
    }

    pub fn aggregate_power_w(&self) -> (out: Scalar)
        ensures
            out == self.measured_w,
    {
        self.measured_w
    }

    pub fn aggregate_reactive_var(&self) -> (out: Scalar)
        ensures
            out == self.reactive.published,
    {
        self.reactive.published()
    }

    pub fn effective_active_bounds(&self) -> (out: VecBounds)
        ensures
            out@ == self.bounds.spec_effective(),
    {
        self.bounds.effective()
    }
}

/// The two axes of a battery inverter are independent: dropping the command of
/// one keeps the other, and dropping both, in either order, is the full reset.
pub proof fn axes_reset_apart(inverter: BatteryInverter)
    ensures
        inverter.spec_reset_active().reactive == inverter.reactive,
        inverter.spec_reset_reactive().delay == inverter.delay,
        inverter.spec_reset_reactive().ramp == inverter.ramp,
        inverter.spec_reset_reactive().measured_w == inverter.measured_w,
        inverter.spec_reset_active().spec_reset_reactive() == inverter.spec_reset(),
        inverter.spec_reset_reactive().spec_reset_active() == inverter.spec_reset(),
{
}

#[derive(Clone, Copy, Debug)]
pub struct SolarInverterConfig {
    pub rated_lower_w: Scalar,
    pub rated_upper_w: Scalar,
    pub sunlight_pct: Scalar,
    pub command_delay: Span,
    /// Watts per second; infinite for none.
    pub ramp_rate_w_per_s: Scalar,
    pub stream_jitter_pct: Scalar,
    pub reactive: ReactiveCapability,
    pub reactive_command_delay: Span,
    /// Vars per second; infinite for none.
    pub reactive_ramp_rate_var_per_s: Scalar,
}

impl Default for SolarInverterConfig {
    /// Up to 30 kW of production in full sunlight, following at once;
    /// reactive power up to 35 % of the active, 100 ms late, at 2000 var/s.
    fn default() -> (out: Self)
        ensures
            out.rated_lower_w == (Scalar { bits: 0xc6ea_6000 }),
            out.rated_upper_w == zero(),
            out.sunlight_pct == hundred(),
            out.command_delay.nanos == 0,
            out.ramp_rate_w_per_s == infinity(),
            out.stream_jitter_pct == zero(),
            out.reactive.pf_limit == Some(Scalar { bits: 0x3eb3_3333 }),
            out.reactive.apparent_va is None,
            out.reactive_command_delay.nanos == 100_000_000,
            out.reactive_ramp_rate_var_per_s == (Scalar { bits: 0x44fa_0000 }),
    {
        SolarInverterConfig {
            rated_lower_w: Scalar { bits: 0xc6ea_6000 },
            rated_upper_w: zero(),
            sunlight_pct: hundred(),
            command_delay: Span { nanos: 0 },
            ramp_rate_w_per_s: infinity(),
            stream_jitter_pct: zero(),
            reactive: ReactiveCapability::microsim_default(),
            reactive_command_delay: Span::from_millis(100),
            reactive_ramp_rate_var_per_s: Scalar { bits: 0x44fa_0000 },
        }
    }
}

/// An inverter in front of solar panels. It produces what the sunlight gives
/// unless it is told to produce less.
#[derive(Debug)]
pub struct SolarInverter {
    pub id: u64,
    pub name: String,
    pub interval: Span,
    pub cfg: SolarInverterConfig,
    pub bounds: ComponentBounds,
    pub delay: CommandDelay,
    pub ramp: Ramp,
    pub reactive: ReactivePath,
}

/// `aimed` is `ramp` with the armed command as its target, but no more
/// production than `sunlit` gives; unchanged where none is armed.
pub open spec fn aims_in_sunlight<L: Fn(Scalar, Scalar) -> Scalar>(
    cfg: SolarInverterConfig,
    ramp: Ramp,
    armed: Option<Scalar>,
    sunlit: L,
    aimed: Ramp,
) -> bool {
    match armed {
        Some(target) => exists|available: Scalar| #[trigger]
            call_ensures(sunlit, (cfg.rated_lower_w, cfg.sunlight_pct), available) && aimed == (
            Ramp { target: target.spec_greater(available), ..ramp }),
        None => aimed == ramp,
    }
}

impl SolarInverter {
    pub open spec fn wf(self) -> bool {
        self.bounds.is_dated() && self.delay.wf() && self.reactive.wf()
    }

    /// `sunlit` is the part of a rating that a percentage of sunlight gives.
    pub fn new<L: Fn(Scalar, Scalar) -> Scalar>(
        id: u64,
        interval: Span,
        cfg: SolarInverterConfig,
        sunlit: &L,
    ) -> (out: Self)
        requires
            call_requires(*sunlit, (cfg.rated_lower_w, cfg.sunlight_pct)),
        ensures
            out.wf(),
            out.id == id,
            out.name@ == "inv-pv-"@ + decimal_text(id as nat),
            out.interval == interval,
            out.cfg == cfg,
            out.bounds.rated@ == seq![
                Bounds { lower: Some(cfg.rated_lower_w), upper: Some(cfg.rated_upper_w) },
            ],
            out.bounds.augmented@ == Seq::<Aug>::empty(),
            out.delay == (CommandDelay { pending: None, armed: None, delay: cfg.command_delay }),
            out.ramp.rate == cfg.ramp_rate_w_per_s,
            out.ramp.target == out.ramp.actual,
            call_ensures(*sunlit, (cfg.rated_lower_w, cfg.sunlight_pct), out.ramp.actual),
            out.reactive == (ReactivePath {
                capability: cfg.reactive,
                delay: CommandDelay {
                    pending: None,
                    armed: None,
                    delay: cfg.reactive_command_delay,
                },
                ramp: Ramp {
                    actual: zero(),
                    target: zero(),
                    rate: cfg.reactive_ramp_rate_var_per_s,
                },
                published: zero(),
            }),
    {
        let initial = sunlit(cfg.rated_lower_w, cfg.sunlight_pct);
        let name = numbered_name("inv-pv-", id);
        SolarInverter {
            id,
            name,
            interval,
            cfg,
            bounds: ComponentBounds::rated(cfg.rated_lower_w, cfg.rated_upper_w),
            delay: CommandDelay::new(cfg.command_delay),
            ramp: Ramp::new(cfg.ramp_rate_w_per_s, initial),
            reactive: ReactivePath::new(
                cfg.reactive,
                cfg.reactive_command_delay,
                cfg.reactive_ramp_rate_var_per_s,
            ),
        }
    }

    /// One tick: expired augmentations go, armed commands aim the ramps, and
    /// the ramps move.
    pub fn tick<
        L: Fn(Scalar, Scalar) -> Scalar,
        T: Fn(Scalar, Scalar) -> Scalar,
        H: Fn(Scalar, Scalar) -> Scalar,
        V: Fn(Scalar, Span) -> Scalar,
        M: Fn(Scalar, Scalar) -> Scalar,
        P: Fn(Scalar, Scalar) -> Scalar,
    >(
        &mut self,
        now: Moment,
        dt: Span,
        sunlit: &L,
        times: &T,
        headroom: &H,
        travel: &V,
        minus: &M,
        plus: &P,
    )
        requires
            old(self).wf(),
            forall|a: Scalar, b: Scalar| call_requires(*sunlit, (a, b)),
            forall|a: Scalar, b: Scalar| call_requires(*times, (a, b)),
            forall|a: Scalar, b: Scalar| call_requires(*headroom, (a, b)),
            forall|r: Scalar, d: Span| call_requires(*travel, (r, d)),
            forall|a: Scalar, b: Scalar| call_requires(*minus, (a, b)),
            forall|a: Scalar, b: Scalar| call_requires(*plus, (a, b)),
        ensures
            final(self).wf(),
            *final(self) == (SolarInverter {
                bounds: final(self).bounds,
                delay: final(self).delay,
                ramp: final(self).ramp,
                reactive: final(self).reactive,
                ..*old(self)
            }),
            final(self).bounds.is_pruned(old(self).bounds, now),
            final(self).delay == old(self).delay.spec_polled(now),
            exists|aimed: Ramp| #[trigger]
                aims_in_sunlight(
                    old(self).cfg,
                    old(self).ramp,
                    final(self).delay.armed,
                    *sunlit,
                    aimed,
                ) && advances(aimed, final(self).ramp, dt, *travel, *minus, *plus),
            reactive_steps(
                old(self).reactive,
                final(self).reactive,
                final(self).ramp.actual,
                now,
                dt,
                *times,
                *headroom,
                *travel,
                *minus,
                *plus,
            ),
    {
        self.bounds.drop_expired(now);
        if let Some(target) = self.delay.poll(now) {
            let available = sunlit(self.cfg.rated_lower_w, self.cfg.sunlight_pct);
            assert(call_ensures(
                *sunlit,
                (self.cfg.rated_lower_w, self.cfg.sunlight_pct),
                available,
            ));
            self.ramp.set_target(target.greater(available));
        }
        let ghost aimed = self.ramp;
        assert(aims_in_sunlight(old(self).cfg, old(self).ramp, self.delay.armed, *sunlit, aimed));
        let p = self.ramp.advance(dt, travel, minus, plus);
        let _ = self.reactive.step(p, now, dt, times, headroom, travel, minus, plus);
    }

    pub fn set_active_setpoint(&mut self, power_w: Scalar, now: Moment) -> (out: Result<
        (),
        SetpointError,
    >)
        requires
            old(self).wf(),
            now.in_calendar(),
        ensures
            final(self).wf(),
            *final(self) == (SolarInverter { delay: final(self).delay, ..*old(self) }),
            answers_setpoint(
                old(self).bounds,
                old(self).delay,
                final(self).delay,
                power_w,
                now,
                out,
            ),
    {
        accept_active(&self.bounds, &mut self.delay, power_w, now)
    }

    /// Drops every command and goes straight back to what the sunlight gives.
    pub fn reset_setpoint<L: Fn(Scalar, Scalar) -> Scalar>(&mut self, sunlit: &L)
        requires
            old(self).wf(),
            call_requires(*sunlit, (old(self).cfg.rated_lower_w, old(self).cfg.sunlight_pct)),
        ensures
            final(self).wf(),
            *final(self) == (SolarInverter {
                delay: CommandDelay { pending: None, armed: None, delay: old(self).delay.delay },
                ramp: final(self).ramp,
                reactive: cleared(old(self).reactive),
                ..*old(self)
            }),
            final(self).ramp.rate == old(self).ramp.rate,
            final(self).ramp.target == final(self).ramp.actual,
            call_ensures(
                *sunlit,
                (old(self).cfg.rated_lower_w, old(self).cfg.sunlight_pct),
                final(self).ramp.actual,
            ),
    {
        let initial = sunlit(self.cfg.rated_lower_w, self.cfg.sunlight_pct);
        self.delay.reset();
        self.ramp.snap_to(initial);
        self.reactive.reset();
    }

    /// Drops the command of one axis and leaves the other one running.
    pub fn reset_setpoint_axis<L: Fn(Scalar, Scalar) -> Scalar>(
        &mut self,
        axis: SetpointAxis,
        sunlit: &L,
    )
        requires
            old(self).wf(),
            call_requires(*sunlit, (old(self).cfg.rated_lower_w, old(self).cfg.sunlight_pct)),
        ensures
            final(self).wf(),
            match axis {
                SetpointAxis::Active => {
                    &&& *final(self) == (SolarInverter {
                        delay: CommandDelay {
                            pending: None,
                            armed: None,
                            delay: old(self).delay.delay,
                        },
                        ramp: final(self).ramp,
                        ..*old(self)
                    })
                    &&& final(self).ramp.rate == old(self).ramp.rate
                    &&& final(self).ramp.target == final(self).ramp.actual
                    &&& call_ensures(
                        *sunlit,
                        (old(self).cfg.rated_lower_w, old(self).cfg.sunlight_pct),
                        final(self).ramp.actual,
                    )
                },
                SetpointAxis::Reactive => *final(self) == (SolarInverter {
                    reactive: cleared(old(self).reactive),
                    ..*old(self)
                }),
            },
    {
        match axis {
            SetpointAxis::Active => {
                let initial = sunlit(self.cfg.rated_lower_w, self.cfg.sunlight_pct);
                self.delay.reset();
                self.ramp.snap_to(initial);
            },
            SetpointAxis::Reactive => {
                self.reactive.reset();
            },
        }
    }

    /// Narrows the envelope for a time.
    pub fn augment_active_bounds(&mut self, ts: Moment, bounds: VecBounds, lifetime: Span)
        requires
            old(self).wf(),
            in_calendar(ts.nanos + lifetime.spec_delta()),
        ensures
            final(self).wf(),
            *final(self) == (SolarInverter { bounds: final(self).bounds, ..*old(self) }),
            final(self).bounds.rated == old(self).bounds.rated,
            final(self).bounds.augmented@ == old(self).bounds.augmented@.push(
                Aug { create_ts: ts, bounds, lifetime },
            ),
    {
        self.bounds.add_augmentation(ts, bounds, lifetime);
    }

    /// What the inverter reports: the measured output, its own envelope, and
    /// the reactive range at that output.
    pub fn telemetry<
        S: Fn(Scalar, Phases) -> Phases,
        C: Fn(Phases, Phases, Phases) -> Phases,
        T: Fn(Scalar, Scalar) -> Scalar,
        H: Fn(Scalar, Scalar) -> Scalar,
    >(&self, grid: &GridState, split: &S, current: &C, times: &T, headroom: &H) -> (out: Telemetry)
        requires
            forall|a: Scalar, v: Phases| call_requires(*split, (a, v)),
            forall|a: Phases, b: Phases, v: Phases| call_requires(*current, (a, b, v)),
            forall|a: Scalar, b: Scalar| call_requires(*times, (a, b)),
            forall|a: Scalar, b: Scalar| call_requires(*headroom, (a, b)),
        ensures
            out.id == self.id,
            out.category == Some(Category::Inverter),
            reads_ac(out, self.ramp.actual, self.reactive.published, *grid, *split, *current),
            is_ac_only(out),
            out.active_power_bounds is Some,
            out.active_power_bounds->0@ == self.bounds.spec_effective(),
            out.reactive_power_bounds is Some,
            is_q_range(
                self.reactive.capability,
                self.ramp.actual,
                *times,
                *headroom,
                out.reactive_power_bounds->0,
            ),
            out.component_state is None,
    {
        let p = self.ramp.actual;
        let mut out = ac_telemetry(
            self.id,
            Category::Inverter,
            p,
            self.reactive.published(),
            grid,
            split,
            current,
        );
        out.active_power_bounds = Some(self.bounds.effective());
        out.reactive_power_bounds = Some(self.reactive.bounds_at(p, times, headroom));
        out
    }

    /// Takes a reactive set-point within the range at the reported output, and
    /// refuses any other.
    pub fn set_reactive_setpoint<T: Fn(Scalar, Scalar) -> Scalar, H: Fn(Scalar, Scalar) -> Scalar>(
        &mut self,
        vars: Scalar,
        now: Moment,
        times: &T,
        headroom: &H,
    ) -> (out: Result<(), SetpointError>)
        requires
            old(self).wf(),
            now.in_calendar(),
            forall|a: Scalar, b: Scalar| call_requires(*times, (a, b)),
            forall|a: Scalar, b: Scalar| call_requires(*headroom, (a, b)),
        ensures
            final(self).wf(),
            *final(self) == (SolarInverter { reactive: final(self).reactive, ..*old(self) }),
            answers_reactive(
                old(self).reactive,
                final(self).reactive,
                old(self).ramp.actual,
                vars,
                now,
                *times,
                *headroom,
                out,
            ),
    {
        let p = self.ramp.actual;
        self.reactive.accept_setpoint(p, vars, now, times, headroom)
    }

    /// The reactive range at the reported output.
    pub fn reactive_bounds<T: Fn(Scalar, Scalar) -> Scalar, H: Fn(Scalar, Scalar) -> Scalar>(
        &self,
        times: &T,
        headroom: &H,
    ) -> (out: (Scalar, Scalar))
        requires
            forall|a: Scalar, b: Scalar| call_requires(*times, (a, b)),
            forall|a: Scalar, b: Scalar| call_requires(*headroom, (a, b)),
        ensures
            is_q_range(self.reactive.capability, self.ramp.actual, *times, *headroom, out),
    {
        self.reactive.bounds_at(self.ramp.actual, times, headroom)
    }

    pub fn rated_active_bounds(&self) -> (out: (Scalar, Scalar))
        ensures
            out == (self.cfg.rated_lower_w, self.cfg.rated_upper_w),
    {
        (self.cfg.rated_lower_w, self.cfg.rated_upper_w)
    }

    pub fn set_reactive_pf_limit(&mut self, pf: Option<Scalar>)
        ensures
            *final(self) == (SolarInverter {
                reactive: ReactivePath {
                    capability: ReactiveCapability {
                        pf_limit: pf,
                        ..old(self).reactive.capability
                    },
                    ..old(self).reactive
                },
                ..*old(self)
            }),
    {
        self.reactive.set_pf_limit(pf);
    }

    pub fn set_reactive_apparent_va(&mut self, va: Option<Scalar>)
        ensures
            *final(self) == (SolarInverter {
                reactive: ReactivePath {
                    capability: ReactiveCapability {
                        apparent_va: va,
                        ..old(self).reactive.capability
                    },
                    ..old(self).reactive
                },
                ..*old(self)
            }),
    {
        self.reactive.set_apparent_va(va);
    }

    pub fn aggregate_power_w(&self) -> (out: Scalar)
        ensures
            out == self.ramp.actual,
    {
        self.ramp.actual()
    }

    pub fn aggregate_reactive_var(&self) -> (out: Scalar)
        ensures
            out == self.reactive.published,
    {
        self.reactive.published()
    }

    pub fn effective_active_bounds(&self) -> (out: VecBounds)
        ensures
            out@ == self.bounds.spec_effective(),
    {
        self.bounds.effective()
    }
}

/// A set-point is taken exactly where one of the intervals of the effective
/// envelope holds it. It is then the command of the next tick or, with a
/// delay, of the first tick after it. A refused one leaves the earlier command
/// in place.
pub proof fn setpoint_is_taken_within_the_envelope(
    bounds: ComponentBounds,
    before: CommandDelay,
    after: CommandDelay,
    value: Scalar,
    now: Moment,
    out: Result<(), SetpointError>,
)
    requires
        answers_setpoint(bounds, before, after, value, now, out),
    ensures
        out is Ok <==> exists|i: int|
            0 <= i < bounds.spec_effective().len() && {
                let b = #[trigger] bounds.spec_effective()[i];
                (b.lower matches Some(l) ==> !value.spec_below(l)) && (b.upper matches Some(u)
                    ==> !u.spec_below(value))
            },
        out is Ok && before.delay.nanos == 0 ==> after.armed == Some(value) && after.pending is None,
        out is Ok && before.delay.nanos > 0 ==> after.pending == Some((now, value)) && after.armed
            == before.armed,
        out is Err ==> after == before,
        after.delay == before.delay,
{
    let env = bounds.spec_effective();
    if union_contains(env, value) {
        let i = choose|i: int| 0 <= i < env.len() && (#[trigger] env[i]).spec_contains(value);
        assert(env[i].spec_contains(value));
    }
    if exists|i: int|
        0 <= i < env.len() && {
            let b = #[trigger] env[i];
            (b.lower matches Some(l) ==> !value.spec_below(l)) && (b.upper matches Some(u)
                ==> !u.spec_below(value))
        } {
        let i = choose|i: int|
            0 <= i < env.len() && {
                let b = #[trigger] env[i];
                (b.lower matches Some(l) ==> !value.spec_below(l)) && (b.upper matches Some(u)
                    ==> !u.spec_below(value))
            };
        assert(env[i].spec_contains(value));
    }
}

/// A reactive set-point within the range is taken, and one outside is refused
/// and changes nothing.
pub proof fn reactive_setpoint_is_taken_within_the_range<
    T: Fn(Scalar, Scalar) -> Scalar,
    H: Fn(Scalar, Scalar) -> Scalar,
>(
    before: ReactivePath,
    after: ReactivePath,
    p: Scalar,
    vars: Scalar,
    now: Moment,
    times: T,
    headroom: H,
    out: Result<(), SetpointError>,
)
    requires
        answers_reactive(before, after, p, vars, now, times, headroom, out),
    ensures
        exists|range: (Scalar, Scalar)| #[trigger]
            is_q_range(before.capability, p, times, headroom, range) && (range.0.spec_at_most(vars)
                && vars.spec_at_most(range.1) ==> out is Ok) && (vars.spec_below(range.0)
                || range.1.spec_below(vars) ==> out is Err),
        out is Err ==> after == before,
        out is Ok && before.delay.delay.nanos == 0 ==> after.delay.armed == Some(vars),
        out is Ok && before.delay.delay.nanos > 0 ==> after.delay.pending == Some((now, vars))
            && after.delay.armed == before.delay.armed,
        after.ramp == before.ramp,
        after.published == before.published,
        after.capability == before.capability,
{
}

/// Solar power follows a command that asks for less than the sunlight gives,
/// and never exceeds what the sunlight gives. Production is negative, so less
/// is the greater value.
pub proof fn production_stays_within_the_sunlight<L: Fn(Scalar, Scalar) -> Scalar>(
    cfg: SolarInverterConfig,
    ramp: Ramp,
    armed: Option<Scalar>,
    sunlit: L,
    aimed: Ramp,
)
    requires
        aims_in_sunlight(cfg, ramp, armed, sunlit, aimed),
    ensures
        aimed.actual == ramp.actual,
        aimed.rate == ramp.rate,
        armed is None ==> aimed.target == ramp.target,
        armed matches Some(target) ==> exists|available: Scalar| #[trigger]
            call_ensures(sunlit, (cfg.rated_lower_w, cfg.sunlight_pct), available) && (
            !target.spec_is_nan() && !available.spec_is_nan() ==> available.spec_at_most(
                aimed.target,
            ) && target.spec_at_most(aimed.target) && (available.spec_at_most(target)
                ==> aimed.target.spec_rank() == target.spec_rank()) && (target.spec_below(
                available,
            ) ==> aimed.target == available)),
{
}

/// Without batteries an inverter reports what it was commanded; with them,
/// where adding is exact, the sum of what they took.
pub proof fn inverter_reports_what_was_taken<P: Fn(Scalar, Scalar) -> Scalar>(
    before: BatteryInverter,
    after: BatteryInverter,
    commanded: (Scalar, Scalar),
    taken: Seq<(Scalar, Scalar)>,
    plus: P,
    value: spec_fn(Scalar) -> int,
)
    requires
        measures(before, after, commanded, taken, plus),
        value(zero()) == 0,
        forall|a: Scalar, b: Scalar, r: Scalar| #[trigger]
            call_ensures(plus, (a, b), r) ==> value(r) == value(a) + value(b),
    ensures
        before.successors@.len() == 0 ==> after.measured_w == commanded.0
            && after.reactive.published == commanded.1,
        before.successors@.len() > 0 ==> value(after.measured_w) == sum_of(
            taken,
            |t: (Scalar, Scalar)| value(t.0),
        ) && value(after.reactive.published) == sum_of(taken, |t: (Scalar, Scalar)| value(t.1)),
        after.ramp == before.ramp,
        after.delay == before.delay,
        after.bounds == before.bounds,
        after.successors == before.successors,
        after.reactive.ramp == before.reactive.ramp,
{
    if before.successors@.len() > 0 {
        exact_fold_adds_up(plus, zero(), actives(taken), after.measured_w, value);
        exact_fold_adds_up(plus, zero(), reactives(taken), after.reactive.published, value);
        sum_of_parts(taken, value);
    }
}

/// Summing the parts of pairs is summing over the pairs.
proof fn sum_of_parts(taken: Seq<(Scalar, Scalar)>, value: spec_fn(Scalar) -> int)
    ensures
        sum_of(actives(taken), value) == sum_of(taken, |t: (Scalar, Scalar)| value(t.0)),
        sum_of(reactives(taken), value) == sum_of(taken, |t: (Scalar, Scalar)| value(t.1)),
    decreases taken.len(),
{
    if taken.len() > 0 {
        let init = taken.drop_last();
        sum_of_parts(init, value);
        assert(actives(taken).drop_last() =~= actives(init));
        assert(reactives(taken).drop_last() =~= reactives(init));
        assert(actives(taken).last() == taken.last().0);
        assert(reactives(taken).last() == taken.last().1);
    }
}

/// The shares are equal and, where dividing is exact, make up the whole
/// command.
pub proof fn shares_make_up_the_command<D: Fn(Scalar, usize) -> Scalar>(
    inverter: BatteryInverter,
    commanded: Scalar,
    over: D,
    part: Scalar,
    value: spec_fn(Scalar) -> int,
)
    requires
        shares(inverter, commanded, over, part),
        forall|a: Scalar, n: usize, r: Scalar| #[trigger]
            call_ensures(over, (a, n), r) ==> value(r) * n == value(a),
    ensures
        inverter.successors@.len() > 0 ==> value(part) * inverter.successors@.len() == value(
            commanded,
        ),
        inverter.successors@.len() == 0 ==> part == commanded,
{
}

/// After a full reset an inverter reports and commands nothing and waits for no
/// command; its rating, its envelope and its batteries stay.
pub proof fn reset_inverter_is_idle(inverter: BatteryInverter, now: Moment)
    ensures
        ({
            let idle = inverter.spec_reset();
            &&& idle.measured_w == zero()
            &&& idle.ramp.actual == zero() && idle.ramp.target == zero()
            &&& idle.delay.spec_polled(now).armed is None
            &&& idle.reactive.published == zero() && idle.reactive.ramp.actual == zero()
            &&& idle.reactive.delay.spec_polled(now).armed is None
            &&& idle.cfg == inverter.cfg && idle.bounds == inverter.bounds
            &&& idle.successors == inverter.successors && idle.id == inverter.id
            &&& idle.ramp.rate == inverter.ramp.rate && idle.delay.delay == inverter.delay.delay
        }),
{
}

/// An armed command within the envelope is what the inverter aims at, and the
/// ramp does not jump; without one the ramp is left alone.
pub proof fn active_command_is_aimed_at<N: Fn(Scalar, Scalar, Scalar) -> bool>(
    bounds: ComponentBounds,
    ramp: Ramp,
    armed: Option<Scalar>,
    nearer: N,
    aimed: Ramp,
)
    requires
        aims_within(bounds, ramp, armed, nearer, aimed),
    ensures
        armed matches Some(target) ==> union_contains(bounds.spec_effective(), target)
            ==> aimed.target == target,
        armed is None ==> aimed.target == ramp.target,
        aimed.actual == ramp.actual,
        aimed.rate == ramp.rate,
{
}

/// A step of the reactive path publishes where its ramp stands, and where no
/// command is in force the ramp goes on to the target that it had.
pub proof fn reactive_step_publishes_its_ramp<
    T: Fn(Scalar, Scalar) -> Scalar,
    H: Fn(Scalar, Scalar) -> Scalar,
    V: Fn(Scalar, Span) -> Scalar,
    M: Fn(Scalar, Scalar) -> Scalar,
    P: Fn(Scalar, Scalar) -> Scalar,
>(
    before: ReactivePath,
    after: ReactivePath,
    p_live: Scalar,
    now: Moment,
    dt: Span,
    times: T,
    headroom: H,
    travel: V,
    minus: M,
    plus: P,
)
    requires
        reactive_steps(
            before,
            after,
            p_live,
            now,
            dt,
            times,
            headroom,
            travel,
            minus,
            plus,
        ),
    ensures
        after.published == after.ramp.actual,
        after.capability == before.capability,
        after.ramp.rate == before.ramp.rate,
        after.delay.armed is None ==> after.ramp.target == before.ramp.target,
        after.delay.armed matches Some(target) ==> exists|range: (Scalar, Scalar)| #[trigger]
            is_q_range(before.capability, p_live, times, headroom, range) && (range.0.spec_at_most(
                target,
            ) && target.spec_at_most(range.1) ==> after.ramp.target == target),
        !before.ramp.rate.spec_is_finite() ==> after.published == after.ramp.target,
{
}

/// A tick commands where the ramps stand: the active power within the envelope
/// that is still in force, the reactive power within the range at the power that
/// was last measured. A ramp without a rate is there at once.
pub proof fn tick_commands_where_the_ramps_stand<
    N: Fn(Scalar, Scalar, Scalar) -> bool,
    T: Fn(Scalar, Scalar) -> Scalar,
    H: Fn(Scalar, Scalar) -> Scalar,
    V: Fn(Scalar, Span) -> Scalar,
    M: Fn(Scalar, Scalar) -> Scalar,
    P: Fn(Scalar, Scalar) -> Scalar,
>(
    before: BatteryInverter,
    after: BatteryInverter,
    now: Moment,
    dt: Span,
    nearer: N,
    times: T,
    headroom: H,
    travel: V,
    minus: M,
    plus: P,
    out: (Scalar, Scalar),
)
    requires
        commands(
            before,
            after,
            now,
            dt,
            nearer,
            times,
            headroom,
            travel,
            minus,
            plus,
            out,
        ),
    ensures
        out.0 == after.ramp.actual,
        out.1 == after.reactive.ramp.actual,
        out.1 == after.reactive.published,
        after.measured_w == before.measured_w,
        after.successors == before.successors,
        after.cfg == before.cfg,
        after.delay == before.delay.spec_polled(now),
        after.bounds.augmented@ == before.bounds.augmented@.filter(
            |a: Aug| a.create_ts.nanos + a.lifetime.spec_delta() >= now.nanos,
        ),
        after.bounds.rated == before.bounds.rated,
        !before.ramp.rate.spec_is_finite() ==> (after.delay.armed matches Some(target) ==> (
        union_contains(after.bounds.spec_effective(), target) ==> out.0 == target)),
        !before.ramp.rate.spec_is_finite() && after.delay.armed is None ==> out.0
            == before.ramp.target,
        after.reactive.delay.armed matches Some(target) ==> exists|range: (Scalar, Scalar)|
         #[trigger]
            is_q_range(before.reactive.capability, before.measured_w, times, headroom, range) && (
            range.0.spec_at_most(target) && target.spec_at_most(range.1)
                ==> after.reactive.ramp.target == target),
{
    let aimed = choose|aimed: Ramp| #[trigger]
        aims_within(after.bounds, before.ramp, after.delay.armed, nearer, aimed) && advances(
            aimed,
            after.ramp,
            dt,
            travel,
            minus,
            plus,
        );
    active_command_is_aimed_at(after.bounds, before.ramp, after.delay.armed, nearer, aimed);
    let live = |a: Aug| !a.is_expired(now);
    let young = |a: Aug| a.create_ts.nanos + a.lifetime.spec_delta() >= now.nanos;
    same_filter(before.bounds.augmented@, live, young);
    reactive_step_publishes_its_ramp(
        before.reactive,
        after.reactive,
        before.measured_w,
        now,
        dt,
        times,
        headroom,
        travel,
        minus,
        plus,
    );
}

proof fn same_filter(all: Seq<Aug>, a: spec_fn(Aug) -> bool, b: spec_fn(Aug) -> bool)
    requires
        forall|x: Aug| #[trigger] a(x) == b(x),
    ensures
        all.filter(a) == all.filter(b),
    decreases all.len(),
{
    reveal(Seq::filter);
    if all.len() > 0 {
        same_filter(all.drop_last(), a, b);
    }
}

} // verus!
