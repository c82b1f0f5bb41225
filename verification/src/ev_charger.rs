//! An electric-vehicle charger.

use crate::bounds::{
    all_firm, all_numeric, effective_stays_firm, intersection, intersection_is_conjunction,
    intersection_is_in_order, union_contains, Aug, Bounds, ComponentBounds, VecBounds,
};
use crate::component::{numbered_name, Category, SetpointError, Telemetry};
use crate::decay::{is_protected, soc_protected_bounds, SocProtect};
use crate::inverter::{accept_active, answers_setpoint};
use crate::ramp::{advances, CommandDelay, Ramp};
use crate::scalar::{hundred, infinity, zero, Scalar};
use crate::site::GridState;
use crate::text::decimal_text;
use crate::time::{in_calendar, Moment, Span};
use crate::timeouts::SetpointAxis;
use vstd::prelude::*;

verus! {

/// The distance from one to the next larger value; targets that differ by no
/// more count as equal.
#[verifier::allow_in_spec]
pub fn epsilon() -> Scalar
    returns
        (Scalar { bits: 0x3400_0000 }),
{
    Scalar { bits: 0x3400_0000 }
}

#[derive(Clone, Copy, Debug)]
pub struct EvChargerConfig {
    pub rated_lower_w: Scalar,
    pub rated_upper_w: Scalar,
    pub initial_soc_pct: Scalar,
    pub soc_lower_pct: Scalar,
    pub soc_upper_pct: Scalar,
    pub soc_protect_margin_pct: Scalar,
    pub capacity_wh: Scalar,
    pub command_delay: Span,
    pub ramp_rate_w_per_s: Scalar,
    pub stream_jitter_pct: Scalar,
}

impl EvChargerConfig {
    pub open spec fn spec_protect(self) -> SocProtect {
        SocProtect {
            soc_lower_pct: self.soc_lower_pct,
            soc_upper_pct: self.soc_upper_pct,
            margin_pct: self.soc_protect_margin_pct,
        }
    }

    fn protect(&self) -> (out: SocProtect)
        ensures
            out == self.spec_protect(),
    {
        SocProtect {
            soc_lower_pct: self.soc_lower_pct,
            soc_upper_pct: self.soc_upper_pct,
            margin_pct: self.soc_protect_margin_pct,
        }
    }
}

impl Default for EvChargerConfig {
    /// Charging only, up to 22 kW; 30 kWh at 50 %, with a margin of 10 %;
    /// commands take effect after half a second, at once.
    fn default() -> (out: Self)
        ensures
            out.rated_lower_w == zero(),
            out.rated_upper_w == (Scalar { bits: 0x46ab_e000 }),
            out.initial_soc_pct == (Scalar { bits: 0x4248_0000 }),
            out.soc_lower_pct == zero(),
            out.soc_upper_pct == hundred(),
            out.soc_protect_margin_pct == (Scalar { bits: 0x4120_0000 }),
            out.capacity_wh == (Scalar { bits: 0x46ea_6000 }),
            out.command_delay.nanos == 500_000_000,
            out.ramp_rate_w_per_s == infinity(),
            out.stream_jitter_pct == zero(),
    {
        EvChargerConfig {
            rated_lower_w: zero(),
            rated_upper_w: Scalar { bits: 0x46ab_e000 },
            initial_soc_pct: Scalar { bits: 0x4248_0000 },
            soc_lower_pct: zero(),
            soc_upper_pct: hundred(),
            soc_protect_margin_pct: Scalar { bits: 0x4120_0000 },
            capacity_wh: Scalar { bits: 0x46ea_6000 },
            command_delay: Span::from_millis(500),
            ramp_rate_w_per_s: infinity(),
            stream_jitter_pct: zero(),
        }
    }
}

#[derive(Clone, Copy, Debug)]
pub struct EvState {
    pub soc_pct: Scalar,
    /// The protected limits, refreshed each tick.
    pub effective_lower_w: Scalar,
    pub effective_upper_w: Scalar,
}

#[derive(Debug)]
pub struct EvCharger {
    pub id: u64,
    pub name: String,
    pub interval: Span,
    pub cfg: EvChargerConfig,
    pub state: EvState,
    pub delay: CommandDelay,
    pub ramp: Ramp,
    pub bounds: ComponentBounds,
}

/// The protected limits as an envelope.
pub open spec fn soc_envelope(lower: Scalar, upper: Scalar) -> Seq<Bounds> {
    seq![Bounds { lower: Some(lower), upper: Some(upper) }]
}

/// The pair of limits that an envelope comes down to: its first interval, an
/// open side taken from the protected limits; zero where nothing is left.
pub open spec fn limits_of(envelope: Seq<Bounds>, lower: Scalar, upper: Scalar) -> (
    Scalar,
    Scalar,
) {
    if envelope.len() == 0 {
        (zero(), zero())
    } else {
        (
            match envelope[0].lower {
                Some(l) => l,
                None => lower,
            },
            match envelope[0].upper {
                Some(u) => u,
                None => upper,
            },
        )
    }
}

/// The limits that a charger with rated sides comes down to are a range.
proof fn limits_are_in_order(ev: EvCharger)
    requires
        all_firm(ev.bounds.rated@),
    ensures
        ({
            let lower = ev.state.effective_lower_w;
            let upper = ev.state.effective_upper_w;
            let limits = limits_of(ev.spec_envelope(), lower, upper);
            limits.0.spec_at_most(limits.1)
        }),
{
    let inner = soc_envelope(ev.state.effective_lower_w, ev.state.effective_upper_w);
    effective_stays_firm(ev.bounds.rated@, ev.bounds.augmented@);
    intersection_is_in_order(inner, ev.bounds.spec_effective());
    let envelope = ev.spec_envelope();
    if envelope.len() > 0 {
        assert(envelope[0].is_in_order());
    }
}

/// `aimed` is `ramp` aimed within the limits: at the armed command where there
/// is one, else at its own target, moved only where that is more than
/// [`epsilon`] outside.
pub open spec fn aims_between<M: Fn(Scalar, Scalar) -> Scalar>(
    limits: (Scalar, Scalar),
    ramp: Ramp,
    armed: Option<Scalar>,
    minus: M,
    aimed: Ramp,
) -> bool {
    match armed {
        Some(target) => aimed == (Ramp {
            target: target.spec_clamped(limits.0, limits.1),
            ..ramp
        }),
        None => {
            let held = ramp.target.spec_clamped(limits.0, limits.1);
            exists|diff: Scalar| #[trigger]
                call_ensures(minus, (held, ramp.target), diff) && aimed == (if epsilon().spec_below(
                    diff.spec_absolute(),
                ) {
                    Ramp { target: held, ..ramp }
                } else {
                    ramp
                })
        },
    }
}

/// An armed command never aims the ramp outside the limits, however far the
/// state of charge and the augmentations have narrowed them.
pub proof fn command_aims_within_limits<M: Fn(Scalar, Scalar) -> Scalar>(
    ev: EvCharger,
    ramp: Ramp,
    target: Scalar,
    minus: M,
    aimed: Ramp,
)
    requires
        all_firm(ev.bounds.rated@),
        !target.spec_is_nan(),
        aims_between(
            limits_of(
                ev.spec_envelope(),
                ev.state.effective_lower_w,
                ev.state.effective_upper_w,
            ),
            ramp,
            Some(target),
            minus,
            aimed,
        ),
    ensures
        ({
            let lower = ev.state.effective_lower_w;
            let upper = ev.state.effective_upper_w;
            let limits = limits_of(ev.spec_envelope(), lower, upper);
            limits.0.spec_at_most(aimed.target) && aimed.target.spec_at_most(limits.1)
        }),
{
    limits_are_in_order(ev);
}

/// `after` is the state of charge once `p` has flown for `dt`. `charge` adds
/// that flow; a charger without a capacity keeps its state.
pub open spec fn charges<C: Fn(Scalar, Scalar, Span, Scalar) -> Scalar>(
    cfg: EvChargerConfig,
    before: Scalar,
    p: Scalar,
    dt: Span,
    charge: C,
    after: Scalar,
) -> bool {
    if zero().spec_below(cfg.capacity_wh) {
        exists|soc: Scalar| #[trigger]
            call_ensures(charge, (before, p, dt, cfg.capacity_wh), soc) && after
                == soc.spec_clamped(zero(), hundred())
    } else {
        after == before
    }
}

impl EvCharger {
    pub open spec fn wf(self) -> bool {
        self.bounds.is_dated() && self.delay.wf()
    }

    /// The protected limits narrowed by the augmentations.
    pub open spec fn spec_envelope(self) -> Seq<Bounds> {
        intersection(
            soc_envelope(self.state.effective_lower_w, self.state.effective_upper_w),
            self.bounds.spec_effective(),
        )
    }

    pub fn new<
        M: Fn(Scalar, Scalar) -> Scalar,
        P: Fn(Scalar, Scalar) -> Scalar,
        T: Fn(Scalar, Scalar, Scalar, Scalar) -> Scalar,
    >(id: u64, interval: Span, cfg: EvChargerConfig, minus: &M, plus: &P, taper: &T) -> (out: Self)
        requires
            forall|a: Scalar, b: Scalar| call_requires(*minus, (a, b)),
            forall|a: Scalar, b: Scalar| call_requires(*plus, (a, b)),
            forall|a: Scalar, b: Scalar, c: Scalar, d: Scalar| call_requires(*taper, (a, b, c, d)),
        ensures
            out.wf(),
            out.id == id,
            out.name@ == "ev-charger-"@ + decimal_text(id as nat),
            out.interval == interval,
            out.cfg == cfg,
            out.state.soc_pct == cfg.initial_soc_pct,
            is_protected(
                (cfg.rated_lower_w, cfg.rated_upper_w),
                cfg.initial_soc_pct,
                cfg.spec_protect(),
                *minus,
                *plus,
                *taper,
                (out.state.effective_lower_w, out.state.effective_upper_w),
            ),
            out.delay == (CommandDelay { pending: None, armed: None, delay: cfg.command_delay }),
            out.ramp == (Ramp { actual: zero(), target: zero(), rate: cfg.ramp_rate_w_per_s }),
            out.bounds.rated@ == soc_envelope(cfg.rated_lower_w, cfg.rated_upper_w),
            out.bounds.augmented@ == Seq::<Aug>::empty(),
    {
        let (lower, upper) = soc_protected_bounds(
            cfg.rated_lower_w,
            cfg.rated_upper_w,
            cfg.initial_soc_pct,
            cfg.protect(),
            minus,
            plus,
            taper,
        );
        let name = numbered_name("ev-charger-", id);
        EvCharger {
            id,
            name,
            interval,
            cfg,
            state: EvState {
                soc_pct: cfg.initial_soc_pct,
                effective_lower_w: lower,
                effective_upper_w: upper,
            },
            delay: CommandDelay::new(cfg.command_delay),
            ramp: Ramp::new(cfg.ramp_rate_w_per_s, zero()),
            bounds: ComponentBounds::rated(cfg.rated_lower_w, cfg.rated_upper_w),
        }
    }

    /// One tick: expired augmentations go, the protected limits are refreshed,
    /// the target is held to what is left, the ramp moves, and the vehicle
    /// charges.
    pub fn tick<
        C: Fn(Scalar, Scalar, Span, Scalar) -> Scalar,
        V: Fn(Scalar, Span) -> Scalar,
        M: Fn(Scalar, Scalar) -> Scalar,
        P: Fn(Scalar, Scalar) -> Scalar,
        T: Fn(Scalar, Scalar, Scalar, Scalar) -> Scalar,
    >(
        &mut self,
        now: Moment,
        dt: Span,
        charge: &C,
        travel: &V,
        minus: &M,
        plus: &P,
        taper: &T,
    )
        requires
            old(self).wf(),
            all_firm(old(self).bounds.rated@),
            forall|a: Scalar, b: Scalar, d: Span, c: Scalar| call_requires(*charge, (a, b, d, c)),
            forall|r: Scalar, d: Span| call_requires(*travel, (r, d)),
            forall|a: Scalar, b: Scalar| call_requires(*minus, (a, b)),
            forall|a: Scalar, b: Scalar| call_requires(*plus, (a, b)),
            forall|a: Scalar, b: Scalar, c: Scalar, d: Scalar| call_requires(*taper, (a, b, c, d)),
        ensures
            final(self).wf(),
            *final(self) == (EvCharger {
                state: final(self).state,
                delay: final(self).delay,
                ramp: final(self).ramp,
                bounds: final(self).bounds,
                ..*old(self)
            }),
            final(self).bounds.is_pruned(old(self).bounds, now),
            final(self).delay == old(self).delay.spec_polled(now),
            is_protected(
                (old(self).cfg.rated_lower_w, old(self).cfg.rated_upper_w),
                old(self).state.soc_pct,
                old(self).cfg.spec_protect(),
                *minus,
                *plus,
                *taper,
                (final(self).state.effective_lower_w, final(self).state.effective_upper_w),
            ),
            exists|aimed: Ramp| #[trigger]
                aims_between(
                    limits_of(
                        final(self).spec_envelope(),
                        final(self).state.effective_lower_w,
                        final(self).state.effective_upper_w,
                    ),
                    old(self).ramp,
                    final(self).delay.armed,
                    *minus,
                    aimed,
                ) && advances(aimed, final(self).ramp, dt, *travel, *minus, *plus),
            charges(
                old(self).cfg,
                old(self).state.soc_pct,
                final(self).ramp.actual,
                dt,
                *charge,
                final(self).state.soc_pct,
            ),
    {
        self.bounds.drop_expired(now);
        let (soc_lower, soc_upper) = soc_protected_bounds(
            self.cfg.rated_lower_w,
            self.cfg.rated_upper_w,
            self.state.soc_pct,
            self.cfg.protect(),
            minus,
            plus,
            taper,
        );
        self.state.effective_lower_w = soc_lower;
        self.state.effective_upper_w = soc_upper;
        let envelope = self.effective_active_bounds();
        let ghost shown = self.spec_envelope();
        proof {
            limits_are_in_order(*self);
        }
        let (lower, upper) = if envelope.0.len() == 0 {
            (zero(), zero())
        } else {
            (
                match envelope.0[0].lower {
                    Some(l) => l,
                    None => soc_lower,
                },
                match envelope.0[0].upper {
                    Some(u) => u,
                    None => soc_upper,
                },
            )
        };
        if let Some(target) = self.delay.poll(now) {
            self.ramp.set_target(target.clamp(lower, upper));
        } else {
            let held = self.ramp.target.clamp(lower, upper);
            let diff = minus(held, self.ramp.target);
            assert(call_ensures(*minus, (held, old(self).ramp.target), diff));
            if epsilon().below(diff.absolute()) {
                self.ramp.set_target(held);
            }
        }
        let ghost aimed = self.ramp;
        assert(aims_between(
            limits_of(shown, soc_lower, soc_upper),
            old(self).ramp,
            self.delay.armed,
            *minus,
            aimed,
        ));
        let p = self.ramp.advance(dt, travel, minus, plus);
        if zero().below(self.cfg.capacity_wh) {
            let soc = charge(self.state.soc_pct, p, dt, self.cfg.capacity_wh);
            assert(call_ensures(
                *charge,
                (old(self).state.soc_pct, p, dt, old(self).cfg.capacity_wh),
                soc,
            ));
            self.state.soc_pct = soc.clamp(zero(), hundred());
        }
        assert(self.spec_envelope() == shown);
    }

    pub fn telemetry(&self, grid: &GridState) -> (out: Telemetry)
        ensures
            out.id == self.id,
            out.category == Some(Category::EvCharger),
            out.active_power_w == Some(self.ramp.actual),
            out.soc_pct == Some(self.state.soc_pct),
            out.soc_lower_pct == Some(self.cfg.soc_lower_pct),
            out.soc_upper_pct == Some(self.cfg.soc_upper_pct),
            out.capacity_wh == Some(self.cfg.capacity_wh),
            out.per_phase_voltage_v == Some(grid.voltage_per_phase),
            out.frequency_hz == Some(grid.frequency_hz),
            out.active_power_bounds is Some,
            out.active_power_bounds->0@ == self.spec_envelope(),
            out.cable_state is Some,
            out.cable_state->0@ == "ev-charging-cable-locked-at-ev"@,
            out.reactive_power_var is None,
            out.per_phase_active_w is None,
            out.per_phase_reactive_var is None,
            out.per_phase_current_a is None,
            out.dc_voltage_v is None,
            out.dc_current_a is None,
            out.dc_power_w is None,
            out.reactive_power_bounds is None,
            out.component_state is None,
            out.relay_state is None,
    {
        let mut out = Telemetry::identity(self.id, Some(Category::EvCharger));
        out.active_power_w = Some(self.ramp.actual);
        out.soc_pct = Some(self.state.soc_pct);
        out.soc_lower_pct = Some(self.cfg.soc_lower_pct);
        out.soc_upper_pct = Some(self.cfg.soc_upper_pct);
        out.capacity_wh = Some(self.cfg.capacity_wh);
        out.per_phase_voltage_v = Some(grid.voltage_per_phase);
        out.frequency_hz = Some(grid.frequency_hz);
        out.active_power_bounds = Some(self.effective_active_bounds());
        out.cable_state = Some("ev-charging-cable-locked-at-ev");
        out
    }

    /// Takes a set-point within the rated and augmented envelope, whatever the
    /// state of charge, and refuses any other.
    pub fn set_active_setpoint(&mut self, power_w: Scalar, now: Moment) -> (out: Result<
        (),
        SetpointError,
    >)
        requires
            old(self).wf(),
            now.in_calendar(),
        ensures
            final(self).wf(),
            *final(self) == (EvCharger { delay: final(self).delay, ..*old(self) }),
            answers_setpoint(
                old(self).bounds,
                old(self).delay,
                final(self).delay,
                power_w,
                now,
                out,
            ),
    {
        accept_active(&self.bounds, &mut self.delay, power_w, now)
    }

    /// Narrows the envelope for a time.
    pub fn augment_active_bounds(&mut self, ts: Moment, bounds: VecBounds, lifetime: Span)
        requires
            old(self).wf(),
            in_calendar(ts.nanos + lifetime.spec_delta()),
        ensures
            final(self).wf(),
            *final(self) == (EvCharger { bounds: final(self).bounds, ..*old(self) }),
            final(self).bounds.rated == old(self).bounds.rated,
            final(self).bounds.augmented@ == old(self).bounds.augmented@.push(
                Aug { create_ts: ts, bounds, lifetime },
            ),
    {
        self.bounds.add_augmentation(ts, bounds, lifetime);
    }

    /// Drops every command and stops at once.
    pub fn reset_setpoint(&mut self)
        requires
            old(self).wf(),
        ensures
            final(self).wf(),
            *final(self) == (EvCharger {
                delay: CommandDelay { pending: None, armed: None, delay: old(self).delay.delay },
                ramp: Ramp { actual: zero(), target: zero(), rate: old(self).ramp.rate },
                ..*old(self)
            }),
    {
        self.delay.reset();
        self.ramp.snap_to(zero());
    }

    /// A charger has one axis only: whichever expires, every command goes.
    pub fn reset_setpoint_axis(&mut self, axis: SetpointAxis)
        requires
            old(self).wf(),
        ensures
            final(self).wf(),
            *final(self) == (EvCharger {
                delay: CommandDelay { pending: None, armed: None, delay: old(self).delay.delay },
                ramp: Ramp { actual: zero(), target: zero(), rate: old(self).ramp.rate },
                ..*old(self)
            }),
    {
        let _ = axis;
        self.reset_setpoint();
    }

    pub fn aggregate_power_w(&self) -> (out: Scalar)
        ensures
            out == self.ramp.actual,
    {
        self.ramp.actual()
    }

    pub fn rated_active_bounds(&self) -> (out: (Scalar, Scalar))
        ensures
            out == (self.cfg.rated_lower_w, self.cfg.rated_upper_w),
    {
        (self.cfg.rated_lower_w, self.cfg.rated_upper_w)
    }

    pub fn effective_active_bounds(&self) -> (out: VecBounds)
        ensures
            out@ == self.spec_envelope(),
    {
        let soc = VecBounds::single(self.state.effective_lower_w, self.state.effective_upper_w);
        soc.intersect(&self.bounds.effective())
    }
}

/// A charger's state of charge stays between 0 and 100 %.
pub proof fn charge_stays_in_range<C: Fn(Scalar, Scalar, Span, Scalar) -> Scalar>(
    cfg: EvChargerConfig,
    before: Scalar,
    p: Scalar,
    dt: Span,
    charge: C,
    after: Scalar,
)
    requires
        charges(cfg, before, p, dt, charge, after),
        zero().spec_at_most(before),
        before.spec_at_most(hundred()),
        !after.spec_is_nan(),
    ensures
        zero().spec_at_most(after),
        after.spec_at_most(hundred()),
{
}

/// The vehicle charges by what the arithmetic gives: where that lies between 0
/// and 100 % the state of charge is it, whatever the sign of the power, and
/// beyond them it stops there. Without a capacity it stays.
pub proof fn charge_follows_the_arithmetic<C: Fn(Scalar, Scalar, Span, Scalar) -> Scalar>(
    cfg: EvChargerConfig,
    before: Scalar,
    p: Scalar,
    dt: Span,
    charge: C,
    after: Scalar,
)
    requires
        charges(cfg, before, p, dt, charge, after),
    ensures
        zero().spec_below(cfg.capacity_wh) ==> exists|soc: Scalar| #[trigger]
            call_ensures(charge, (before, p, dt, cfg.capacity_wh), soc) && (zero().spec_at_most(soc)
                && soc.spec_at_most(hundred()) ==> after == soc) && (hundred().spec_below(soc)
                ==> after == hundred()) && (soc.spec_below(zero()) ==> after == zero()),
        !zero().spec_below(cfg.capacity_wh) ==> after == before,
{
}

/// A vehicle that is charged ends no emptier and one that feeds back ends no
/// fuller, where the arithmetic says so.
pub proof fn power_moves_the_charge_its_way<C: Fn(Scalar, Scalar, Span, Scalar) -> Scalar>(
    cfg: EvChargerConfig,
    before: Scalar,
    p: Scalar,
    dt: Span,
    charge: C,
    after: Scalar,
)
    requires
        charges(cfg, before, p, dt, charge, after),
        zero().spec_at_most(before),
        before.spec_at_most(hundred()),
        forall|soc: Scalar| #[trigger]
            call_ensures(charge, (before, p, dt, cfg.capacity_wh), soc) ==> (zero().spec_at_most(p)
                ==> before.spec_at_most(soc)) && (p.spec_at_most(zero()) ==> soc.spec_at_most(
                before,
            )),
    ensures
        zero().spec_at_most(p) ==> before.spec_at_most(after),
        p.spec_at_most(zero()) ==> after.spec_at_most(before),
{
}

/// An armed command is what the charger aims at where the limits allow it, and
/// the nearer limit where they do not; the ramp does not jump.
pub proof fn command_is_aimed_at<M: Fn(Scalar, Scalar) -> Scalar>(
    limits: (Scalar, Scalar),
    ramp: Ramp,
    target: Scalar,
    minus: M,
    aimed: Ramp,
)
    requires
        limits.0.spec_at_most(limits.1),
        aims_between(limits, ramp, Some(target), minus, aimed),
    ensures
        limits.0.spec_at_most(target) && target.spec_at_most(limits.1) ==> aimed.target == target,
        target.spec_below(limits.0) ==> aimed.target == limits.0,
        limits.1.spec_below(target) ==> aimed.target == limits.1,
        aimed.actual == ramp.actual,
        aimed.rate == ramp.rate,
{
}

/// Without a command the charger keeps its target where the limits allow it,
/// where a value minus itself is zero, and gives it up for the nearer limit
/// where it is clearly outside.
pub proof fn target_stays_within_the_limits<M: Fn(Scalar, Scalar) -> Scalar>(
    limits: (Scalar, Scalar),
    ramp: Ramp,
    minus: M,
    aimed: Ramp,
)
    requires
        limits.0.spec_at_most(limits.1),
        aims_between(limits, ramp, None, minus, aimed),
        forall|a: Scalar, d: Scalar| #[trigger]
            call_ensures(minus, (a, a), d) ==> d.spec_rank() == 0 && !d.spec_is_nan(),
    ensures
        limits.0.spec_at_most(ramp.target) && ramp.target.spec_at_most(limits.1) ==> aimed == ramp,
        ramp.target.spec_below(limits.0) && (forall|d: Scalar| #[trigger]
            call_ensures(minus, (limits.0, ramp.target), d) ==> epsilon().spec_below(
                d.spec_absolute(),
            )) ==> aimed.target == limits.0,
        limits.1.spec_below(ramp.target) && (forall|d: Scalar| #[trigger]
            call_ensures(minus, (limits.1, ramp.target), d) ==> epsilon().spec_below(
                d.spec_absolute(),
            )) ==> aimed.target == limits.1,
        ramp.target.spec_below(limits.0) && (forall|d: Scalar| #[trigger]
            call_ensures(minus, (limits.0, ramp.target), d) ==> !epsilon().spec_below(
                d.spec_absolute(),
            )) ==> aimed == ramp,
        limits.1.spec_below(ramp.target) && (forall|d: Scalar| #[trigger]
            call_ensures(minus, (limits.1, ramp.target), d) ==> !epsilon().spec_below(
                d.spec_absolute(),
            )) ==> aimed == ramp,
        aimed.actual == ramp.actual,
        aimed.rate == ramp.rate,
{
}

/// Where nothing of the envelope is left the charger neither charges nor
/// discharges; else its first interval bounds it.
pub proof fn limits_come_from_the_envelope(envelope: Seq<Bounds>, lower: Scalar, upper: Scalar)
    ensures
        envelope.len() == 0 ==> limits_of(envelope, lower, upper) == (zero(), zero()),
        envelope.len() > 0 && envelope[0].lower is Some ==> limits_of(envelope, lower, upper).0
            == envelope[0].lower->0,
        envelope.len() > 0 && envelope[0].upper is Some ==> limits_of(envelope, lower, upper).1
            == envelope[0].upper->0,
        envelope.len() > 0 && envelope[0].lower is None ==> limits_of(envelope, lower, upper).0
            == lower,
        envelope.len() > 0 && envelope[0].upper is None ==> limits_of(envelope, lower, upper).1
            == upper,
{
}

/// The envelope of a charger holds what both the charge of the car and the
/// bounds of the charger allow.
pub proof fn envelope_keeps_both_limits(ev: EvCharger, value: Scalar)
    requires
        !ev.state.effective_lower_w.spec_is_nan(),
        !ev.state.effective_upper_w.spec_is_nan(),
        all_numeric(ev.bounds.spec_effective()),
        !value.spec_is_nan(),
    ensures
        union_contains(ev.spec_envelope(), value) <==> ev.state.effective_lower_w.spec_at_most(
            value,
        ) && value.spec_at_most(ev.state.effective_upper_w) && union_contains(
            ev.bounds.spec_effective(),
            value,
        ),
{
    let own = soc_envelope(ev.state.effective_lower_w, ev.state.effective_upper_w);
    assert forall|i: int| 0 <= i < own.len() implies #[trigger] own[i].is_numeric() by {
        assert(i == 0);
    }
    assert forall|i: int, j: int|
        0 <= i < own.len() && 0 <= j < ev.bounds.spec_effective().len() implies !(
    #[trigger] own[i].is_open() && #[trigger] ev.bounds.spec_effective()[j].is_open()) by {
        assert(i == 0);
    }
    intersection_is_conjunction(own, ev.bounds.spec_effective(), value);
    if union_contains(own, value) {
        let i = choose|i: int| 0 <= i < own.len() && #[trigger] own[i].spec_contains(value);
        assert(i == 0);
    }
    if ev.state.effective_lower_w.spec_at_most(value) && value.spec_at_most(
        ev.state.effective_upper_w,
    ) {
        assert(own[0].spec_contains(value));
    }
}

/// The charge of the car is protected by the limits and the margin that the
/// charger is configured with.
pub proof fn protection_is_as_configured(cfg: EvChargerConfig)
    ensures
        cfg.spec_protect().soc_lower_pct == cfg.soc_lower_pct,
        cfg.spec_protect().soc_upper_pct == cfg.soc_upper_pct,
        cfg.spec_protect().margin_pct == cfg.soc_protect_margin_pct,
{
}

/// A charger reports the power that it draws, the charge of the car and the
/// envelope in force.
pub proof fn charger_reports_its_state(ev: &EvCharger, grid: &GridState, out: Telemetry)
    requires
        call_ensures(EvCharger::telemetry, (ev, grid), out),
    ensures
        out.id == ev.id,
        out.active_power_w == Some(ev.ramp.actual),
        out.soc_pct == Some(ev.state.soc_pct),
        out.soc_lower_pct == Some(ev.cfg.soc_lower_pct),
        out.soc_upper_pct == Some(ev.cfg.soc_upper_pct),
        out.active_power_bounds matches Some(e) && e@ == ev.spec_envelope(),
        out.frequency_hz == Some(grid.frequency_hz),
        out.per_phase_voltage_v == Some(grid.voltage_per_phase),
        out.dc_power_w is None,
{
}

} // verus!
