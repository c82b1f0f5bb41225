//! A battery: state of charge, protected limits, and what it accepts on its
//! DC bus.

use crate::bounds::{union_contains, Bounds, VecBounds};
use crate::component::{numbered_name, Category, Telemetry};
use crate::decay::{
    ends_at_its_stop, is_protected, nothing_flows_past_a_limit, rated_away_from_limits,
    soc_protected_bounds, SocProtect,
};
use crate::scalar::{hundred, zero, Scalar};
use crate::text::decimal_text;
use crate::time::Span;
use vstd::prelude::*;

verus! {

#[derive(Clone, Copy, Debug)]
pub struct BatteryConfig {
    pub capacity_wh: Scalar,
    pub initial_soc_pct: Scalar,
    pub soc_lower_pct: Scalar,
    pub soc_upper_pct: Scalar,
    pub voltage_v: Scalar,
    pub rated_lower_w: Scalar,
    pub rated_upper_w: Scalar,
    /// Width of the band before each state-of-charge limit in which the rated
    /// power tapers off.
    pub soc_protect_margin_pct: Scalar,
    pub stream_jitter_pct: Scalar,
}

impl BatteryConfig {
    pub open spec fn spec_protect(self) -> SocProtect {
        SocProtect {
            soc_lower_pct: self.soc_lower_pct,
            soc_upper_pct: self.soc_upper_pct,
            margin_pct: self.soc_protect_margin_pct,
        }
    }

    fn protect(&self) -> (out: SocProtect)
        ensures
            out == self.spec_protect(),
    {
        SocProtect {
            soc_lower_pct: self.soc_lower_pct,
            soc_upper_pct: self.soc_upper_pct,
            margin_pct: self.soc_protect_margin_pct,
        }
    }
}

impl Default for BatteryConfig {
    /// 92 kWh at 50 %, kept between 10 % and 90 %, 800 V, rated 30 kW both
    /// ways, with a margin of 10 %.
    fn default() -> (out: Self)
        ensures
            out.capacity_wh == (Scalar { bits: 0x47b3_b000 }),
            out.initial_soc_pct == (Scalar { bits: 0x4248_0000 }),
            out.soc_lower_pct == (Scalar { bits: 0x4120_0000 }),
            out.soc_upper_pct == (Scalar { bits: 0x42b4_0000 }),
            out.voltage_v == (Scalar { bits: 0x4448_0000 }),
            out.rated_lower_w == (Scalar { bits: 0xc6ea_6000 }),
            out.rated_upper_w == (Scalar { bits: 0x46ea_6000 }),
            out.soc_protect_margin_pct == (Scalar { bits: 0x4120_0000 }),
            out.stream_jitter_pct == zero(),
    {
        BatteryConfig {
            capacity_wh: Scalar { bits: 0x47b3_b000 },
            initial_soc_pct: Scalar { bits: 0x4248_0000 },
            soc_lower_pct: Scalar { bits: 0x4120_0000 },
            soc_upper_pct: Scalar { bits: 0x42b4_0000 },
            voltage_v: Scalar { bits: 0x4448_0000 },
            rated_lower_w: Scalar { bits: 0xc6ea_6000 },
            rated_upper_w: Scalar { bits: 0x46ea_6000 },
            soc_protect_margin_pct: Scalar { bits: 0x4120_0000 },
            stream_jitter_pct: zero(),
        }
    }
}

#[derive(Clone, Copy, Debug)]
pub struct BatteryState {
    /// Active power; it alone moves the state of charge.
    pub power_w: Scalar,
    /// Reactive load on the DC bus.
    pub reactive_var: Scalar,
    pub energy_wh: Scalar,
    pub soc_pct: Scalar,
    /// The protected limits, refreshed each tick.
    pub effective_lower_w: Scalar,
    pub effective_upper_w: Scalar,
}

#[derive(Debug)]
pub struct Battery {
    pub id: u64,
    pub name: String,
    pub interval: Span,
    pub cfg: BatteryConfig,
    pub state: BatteryState,
}

/// `p` pulled under the upper limit and then over the lower one.
pub open spec fn pulled_back(p: Scalar, lower: Scalar, upper: Scalar) -> Scalar {
    let capped = if upper.spec_below(p) {
        upper
    } else {
        p
    };
    if capped.spec_below(lower) {
        lower
    } else {
        capped
    }
}

/// `after` is `before` one tick later. `integrate` adds the energy of a power
/// over a time, and `charge` is the state of charge that a net energy leaves.
pub open spec fn battery_ticks<
    I: Fn(Scalar, Scalar, Span) -> Scalar,
    C: Fn(Scalar, Scalar, Scalar) -> Scalar,
    M: Fn(Scalar, Scalar) -> Scalar,
    P: Fn(Scalar, Scalar) -> Scalar,
    T: Fn(Scalar, Scalar, Scalar, Scalar) -> Scalar,
>(
    cfg: BatteryConfig,
    before: BatteryState,
    after: BatteryState,
    dt: Span,
    integrate: I,
    charge: C,
    minus: M,
    plus: P,
    taper: T,
) -> bool {
    &&& call_ensures(integrate, (before.energy_wh, before.power_w, dt), after.energy_wh)
    &&& exists|soc: Scalar| #[trigger]
        call_ensures(charge, (cfg.initial_soc_pct, after.energy_wh, cfg.capacity_wh), soc)
            && after.soc_pct == soc.spec_clamped(zero(), hundred())
    &&& is_protected(
        (cfg.rated_lower_w, cfg.rated_upper_w),
        after.soc_pct,
        cfg.spec_protect(),
        minus,
        plus,
        taper,
        (after.effective_lower_w, after.effective_upper_w),
    )
    &&& after.power_w == pulled_back(
        before.power_w,
        after.effective_lower_w,
        after.effective_upper_w,
    )
    &&& after.reactive_var == before.reactive_var
}

/// What a battery is doing at a power.
pub open spec fn state_text(p: Scalar) -> Seq<char> {
    if zero().spec_below(p) {
        "charging"@
    } else if p.spec_below(zero()) {
        "discharging"@
    } else {
        "ready"@
    }
}

pub fn power_to_state(p: Scalar) -> (out: &'static str)
    ensures
        out@ == state_text(p),
{
    if zero().below(p) {
        "charging"
    } else if p.below(zero()) {
        "discharging"
    } else {
        "ready"
    }
}

/// A magnitude with the sign of a power.
pub open spec fn signed_like(size: Scalar, p: Scalar) -> Scalar {
    if zero().spec_at_most(p) {
        size
    } else {
        size.spec_negated()
    }
}

impl Battery {
    pub fn new<
        M: Fn(Scalar, Scalar) -> Scalar,
        P: Fn(Scalar, Scalar) -> Scalar,
        T: Fn(Scalar, Scalar, Scalar, Scalar) -> Scalar,
    >(id: u64, interval: Span, cfg: BatteryConfig, minus: &M, plus: &P, taper: &T) -> (out: Self)
        requires
            forall|a: Scalar, b: Scalar| call_requires(*minus, (a, b)),
            forall|a: Scalar, b: Scalar| call_requires(*plus, (a, b)),
            forall|a: Scalar, b: Scalar, c: Scalar, d: Scalar| call_requires(*taper, (a, b, c, d)),
        ensures
            out.id == id,
            out.name@ == "bat-"@ + decimal_text(id as nat),
            out.interval == interval,
            out.cfg == cfg,
            out.state.power_w == zero(),
            out.state.reactive_var == zero(),
            out.state.energy_wh == zero(),
            out.state.soc_pct == cfg.initial_soc_pct,
            is_protected(
                (cfg.rated_lower_w, cfg.rated_upper_w),
                cfg.initial_soc_pct,
                cfg.spec_protect(),
                *minus,
                *plus,
                *taper,
                (out.state.effective_lower_w, out.state.effective_upper_w),
            ),
    {
        let soc = cfg.initial_soc_pct;
        let (lower, upper) = soc_protected_bounds(
            cfg.rated_lower_w,
            cfg.rated_upper_w,
            soc,
            cfg.protect(),
            minus,
            plus,
            taper,
        );
        let name = numbered_name("bat-", id);
        Battery {
            id,
            name,
            interval,
            cfg,
            state: BatteryState {
                power_w: zero(),
                reactive_var: zero(),
                energy_wh: zero(),
                soc_pct: soc,
                effective_lower_w: lower,
                effective_upper_w: upper,
            },
        }
    }

    pub fn power_w(&self) -> (out: Scalar)
        ensures
            out == self.state.power_w,
    {
        self.state.power_w
    }

    /// One tick: integrates the power, refreshes the protected limits, and
    /// pulls the power back within them.
    pub fn tick<
        I: Fn(Scalar, Scalar, Span) -> Scalar,
        C: Fn(Scalar, Scalar, Scalar) -> Scalar,
        M: Fn(Scalar, Scalar) -> Scalar,
        P: Fn(Scalar, Scalar) -> Scalar,
        T: Fn(Scalar, Scalar, Scalar, Scalar) -> Scalar,
    >(&mut self, dt: Span, integrate: &I, charge: &C, minus: &M, plus: &P, taper: &T)
        requires
            forall|a: Scalar, b: Scalar, d: Span| call_requires(*integrate, (a, b, d)),
            forall|a: Scalar, b: Scalar, c: Scalar| call_requires(*charge, (a, b, c)),
            forall|a: Scalar, b: Scalar| call_requires(*minus, (a, b)),
            forall|a: Scalar, b: Scalar| call_requires(*plus, (a, b)),
            forall|a: Scalar, b: Scalar, c: Scalar, d: Scalar| call_requires(*taper, (a, b, c, d)),
        ensures
            *final(self) == (Battery { state: final(self).state, ..*old(self) }),
            battery_ticks(
                old(self).cfg,
                old(self).state,
                final(self).state,
                dt,
                *integrate,
                *charge,
                *minus,
                *plus,
                *taper,
            ),
    {
        let energy = integrate(self.state.energy_wh, self.state.power_w, dt);
        let soc = charge(self.cfg.initial_soc_pct, energy, self.cfg.capacity_wh);
        assert(call_ensures(
            *charge,
            (self.cfg.initial_soc_pct, energy, self.cfg.capacity_wh),
            soc,
        ));
        let soc_pct = soc.clamp(zero(), hundred());
        let (lower, upper) = soc_protected_bounds(
            self.cfg.rated_lower_w,
            self.cfg.rated_upper_w,
            soc_pct,
            self.cfg.protect(),
            minus,
            plus,
            taper,
        );
        let mut power = self.state.power_w;
        if upper.below(power) {
            power = upper;
        }
        if power.below(lower) {
            power = lower;
        }
        self.state = BatteryState {
            power_w: power,
            reactive_var: self.state.reactive_var,
            energy_wh: energy,
            soc_pct,
            effective_lower_w: lower,
            effective_upper_w: upper,
        };
    }

    /// What the battery reports. `apparent` is the magnitude of an active and
    /// a reactive part, `over` divides.
    pub fn telemetry<A: Fn(Scalar, Scalar) -> Scalar, D: Fn(Scalar, Scalar) -> Scalar>(
        &self,
        apparent: &A,
        over: &D,
    ) -> (out: Telemetry)
        requires
            forall|a: Scalar, b: Scalar| call_requires(*apparent, (a, b)),
            forall|a: Scalar, b: Scalar| call_requires(*over, (a, b)),
        ensures
            out.id == self.id,
            out.category == Some(Category::Battery),
            out.soc_pct == Some(self.state.soc_pct),
            out.soc_lower_pct == Some(self.cfg.soc_lower_pct),
            out.soc_upper_pct == Some(self.cfg.soc_upper_pct),
            out.capacity_wh == Some(self.cfg.capacity_wh),
            out.dc_voltage_v == Some(self.cfg.voltage_v),
            exists|size: Scalar| #[trigger]
                call_ensures(*apparent, (self.state.power_w, self.state.reactive_var), size)
                    && out.dc_power_w == Some(signed_like(size, self.state.power_w)),
            out.dc_current_a is Some,
            if self.cfg.voltage_v.spec_rank() == 0 {
                out.dc_current_a == Some(zero())
            } else {
                call_ensures(*over, (out.dc_power_w->0, self.cfg.voltage_v), out.dc_current_a->0)
            },
            out.active_power_bounds is Some,
            out.active_power_bounds->0@ == self.spec_envelope(),
            out.component_state is Some,
            out.component_state->0@ == state_text(self.state.power_w),
            out.relay_state is Some,
            out.relay_state->0@ == "relay-closed"@,
            out.active_power_w is None,
            out.reactive_power_var is None,
            out.per_phase_active_w is None,
            out.per_phase_reactive_var is None,
            out.per_phase_voltage_v is None,
            out.per_phase_current_a is None,
            out.frequency_hz is None,
            out.reactive_power_bounds is None,
            out.cable_state is None,
    {
        let size = apparent(self.state.power_w, self.state.reactive_var);
        assert(call_ensures(*apparent, (self.state.power_w, self.state.reactive_var), size));
        let signed = if zero().at_most(self.state.power_w) {
            size
        } else {
            size.negate()
        };
        let current = if self.cfg.voltage_v.rank() == 0 {
            zero()
        } else {
            over(signed, self.cfg.voltage_v)
        };
        let mut out = Telemetry::identity(self.id, Some(Category::Battery));
        out.soc_pct = Some(self.state.soc_pct);
        out.soc_lower_pct = Some(self.cfg.soc_lower_pct);
        out.soc_upper_pct = Some(self.cfg.soc_upper_pct);
        out.capacity_wh = Some(self.cfg.capacity_wh);
        out.dc_voltage_v = Some(self.cfg.voltage_v);
        out.dc_power_w = Some(signed);
        out.dc_current_a = Some(current);
        out.active_power_bounds = Some(self.effective_active_bounds());
        out.component_state = Some(power_to_state(self.state.power_w));
        out.relay_state = Some("relay-closed");
        out
    }

    pub fn aggregate_power_w(&self) -> (out: Scalar)
        ensures
            out == self.state.power_w,
    {
        self.state.power_w
    }

    pub fn aggregate_reactive_var(&self) -> (out: Scalar)
        ensures
            out == self.state.reactive_var,
    {
        self.state.reactive_var
    }

    /// The protected limits are a range.
    pub open spec fn spec_limits_hold(self) -> bool {
        self.state.effective_lower_w.spec_at_most(self.state.effective_upper_w)
    }

    pub fn limits_hold(&self) -> (out: bool)
        ensures
            out == self.spec_limits_hold(),
    {
        self.state.effective_lower_w.at_most(self.state.effective_upper_w)
    }

    /// Takes what was pushed onto the DC bus, held to the protected limits.
    pub fn set_dc_power(&mut self, p: Scalar)
        requires
            old(self).spec_limits_hold(),
        ensures
            *final(self) == old(self).spec_pushed(p, zero()),
    {
        self.set_dc_active_reactive(p, zero());
    }

    /// The battery after a push onto its DC bus: the active part held to the
    /// protected limits, the reactive part as it is.
    pub open spec fn spec_pushed(self, p: Scalar, q: Scalar) -> Battery {
        Battery {
            state: BatteryState {
                power_w: p.spec_clamped(
                    self.state.effective_lower_w,
                    self.state.effective_upper_w,
                ),
                reactive_var: q,
                ..self.state
            },
            ..self
        }
    }

    pub fn set_dc_active_reactive(&mut self, p: Scalar, q: Scalar)
        requires
            old(self).spec_limits_hold(),
        ensures
            *final(self) == old(self).spec_pushed(p, q),
    {
        let held = p.clamp(self.state.effective_lower_w, self.state.effective_upper_w);
        self.state.power_w = held;
        self.state.reactive_var = q;
    }

    pub fn rated_active_bounds(&self) -> (out: (Scalar, Scalar))
        ensures
            out == (self.cfg.rated_lower_w, self.cfg.rated_upper_w),
    {
        (self.cfg.rated_lower_w, self.cfg.rated_upper_w)
    }

    pub open spec fn spec_envelope(self) -> Seq<Bounds> {
        seq![
            Bounds {
                lower: Some(self.state.effective_lower_w),
                upper: Some(self.state.effective_upper_w),
            },
        ]
    }

    pub fn effective_active_bounds(&self) -> (out: VecBounds)
        ensures
            out@ == self.spec_envelope(),
    {
        VecBounds::single(self.state.effective_lower_w, self.state.effective_upper_w)
    }
}

/// A battery's state of charge stays between 0 and 100 %, and its power
/// within its protected limits.
pub proof fn battery_stays_within_limits<
    I: Fn(Scalar, Scalar, Span) -> Scalar,
    C: Fn(Scalar, Scalar, Scalar) -> Scalar,
    M: Fn(Scalar, Scalar) -> Scalar,
    P: Fn(Scalar, Scalar) -> Scalar,
    T: Fn(Scalar, Scalar, Scalar, Scalar) -> Scalar,
>(
    cfg: BatteryConfig,
    before: BatteryState,
    after: BatteryState,
    dt: Span,
    integrate: I,
    charge: C,
    minus: M,
    plus: P,
    taper: T,
)
    requires
        battery_ticks(cfg, before, after, dt, integrate, charge, minus, plus, taper),
    ensures
        !after.soc_pct.spec_is_nan() ==> zero().spec_at_most(after.soc_pct)
            && after.soc_pct.spec_at_most(hundred()),
        !before.power_w.spec_is_nan() && after.effective_lower_w.spec_at_most(
            after.effective_upper_w,
        ) ==> after.effective_lower_w.spec_at_most(after.power_w) && after.power_w.spec_at_most(
            after.effective_upper_w,
        ),
{
}

/// A pushed power that lies within the protected limits is taken as it is,
/// discharging included. One beyond a limit is held to that limit, and nothing
/// else of the battery changes but the reactive load, which is taken whole.
pub proof fn push_within_limits_is_taken(b: Battery, p: Scalar, q: Scalar)
    requires
        b.state.effective_lower_w.spec_at_most(b.state.effective_upper_w),
    ensures
        b.state.effective_lower_w.spec_at_most(p) && p.spec_at_most(b.state.effective_upper_w)
            ==> b.spec_pushed(p, q).state.power_w == p,
        b.state.effective_upper_w.spec_below(p) ==> b.spec_pushed(p, q).state.power_w
            == b.state.effective_upper_w,
        p.spec_below(b.state.effective_lower_w) ==> b.spec_pushed(p, q).state.power_w
            == b.state.effective_lower_w,
        b.spec_pushed(p, q).state.reactive_var == q,
        b.spec_pushed(p, q).state.energy_wh == b.state.energy_wh,
        b.spec_pushed(p, q).state.soc_pct == b.state.soc_pct,
        b.spec_pushed(p, q).state.effective_lower_w == b.state.effective_lower_w,
        b.spec_pushed(p, q).state.effective_upper_w == b.state.effective_upper_w,
        b.spec_pushed(p, q).cfg == b.cfg,
        b.spec_pushed(p, q).id == b.id,
{
}

/// A larger push is never taken for less.
pub proof fn larger_push_takes_no_less(b: Battery, p: Scalar, r: Scalar, q: Scalar)
    requires
        b.state.effective_lower_w.spec_at_most(b.state.effective_upper_w),
        p.spec_at_most(r),
    ensures
        b.spec_pushed(p, q).state.power_w.spec_at_most(b.spec_pushed(r, q).state.power_w),
{
}

/// What a tick leaves: the energy that the arithmetic gives for the power
/// before it; the charge that follows from it, as it is between 0 and 100 % and
/// held to those otherwise; the power as it was where the new limits allow it,
/// and the nearer limit where they do not.
pub proof fn tick_follows_the_power<
    I: Fn(Scalar, Scalar, Span) -> Scalar,
    C: Fn(Scalar, Scalar, Scalar) -> Scalar,
    M: Fn(Scalar, Scalar) -> Scalar,
    P: Fn(Scalar, Scalar) -> Scalar,
    T: Fn(Scalar, Scalar, Scalar, Scalar) -> Scalar,
>(
    cfg: BatteryConfig,
    before: BatteryState,
    after: BatteryState,
    dt: Span,
    integrate: I,
    charge: C,
    minus: M,
    plus: P,
    taper: T,
) -> (soc: Scalar)
    requires
        battery_ticks(cfg, before, after, dt, integrate, charge, minus, plus, taper),
    ensures
        call_ensures(integrate, (before.energy_wh, before.power_w, dt), after.energy_wh),
        call_ensures(charge, (cfg.initial_soc_pct, after.energy_wh, cfg.capacity_wh), soc),
        zero().spec_at_most(soc) && soc.spec_at_most(hundred()) ==> after.soc_pct == soc,
        hundred().spec_below(soc) ==> after.soc_pct == hundred(),
        soc.spec_below(zero()) ==> after.soc_pct == zero(),
        after.effective_lower_w.spec_at_most(before.power_w) && before.power_w.spec_at_most(
            after.effective_upper_w,
        ) ==> after.power_w == before.power_w,
        after.effective_lower_w.spec_at_most(after.effective_upper_w)
            && after.effective_upper_w.spec_below(before.power_w) ==> after.power_w
            == after.effective_upper_w,
        before.power_w.spec_below(after.effective_lower_w)
            && after.effective_lower_w.spec_at_most(after.effective_upper_w) ==> after.power_w
            == after.effective_lower_w,
        after.reactive_var == before.reactive_var,
        cfg.soc_protect_margin_pct.spec_at_most(zero()) ==> after.effective_lower_w
            == cfg.rated_lower_w && after.effective_upper_w == cfg.rated_upper_w,
{
    choose|soc: Scalar| #[trigger]
        call_ensures(charge, (cfg.initial_soc_pct, after.energy_wh, cfg.capacity_wh), soc)
            && after.soc_pct == soc.spec_clamped(zero(), hundred())
}

/// A battery that is charged ends no emptier, and one that is discharged ends
/// no fuller, than its energy before the tick stood for, where the arithmetic
/// keeps order.
pub proof fn charging_fills_and_discharging_empties<
    I: Fn(Scalar, Scalar, Span) -> Scalar,
    C: Fn(Scalar, Scalar, Scalar) -> Scalar,
    M: Fn(Scalar, Scalar) -> Scalar,
    P: Fn(Scalar, Scalar) -> Scalar,
    T: Fn(Scalar, Scalar, Scalar, Scalar) -> Scalar,
>(
    cfg: BatteryConfig,
    before: BatteryState,
    after: BatteryState,
    stood: Scalar,
    dt: Span,
    integrate: I,
    charge: C,
    minus: M,
    plus: P,
    taper: T,
)
    requires
        battery_ticks(cfg, before, after, dt, integrate, charge, minus, plus, taper),
        call_ensures(charge, (cfg.initial_soc_pct, before.energy_wh, cfg.capacity_wh), stood),
        zero().spec_at_most(stood),
        stood.spec_at_most(hundred()),
        forall|e: Scalar| #[trigger]
            call_ensures(integrate, (before.energy_wh, before.power_w, dt), e) ==> (
            zero().spec_at_most(before.power_w) ==> before.energy_wh.spec_at_most(e)) && (
            before.power_w.spec_at_most(zero()) ==> e.spec_at_most(before.energy_wh)),
        forall|e: Scalar, f: Scalar, r: Scalar, s: Scalar|
            #![trigger call_ensures(charge, (cfg.initial_soc_pct, e, cfg.capacity_wh), r), call_ensures(charge, (cfg.initial_soc_pct, f, cfg.capacity_wh), s)]
            call_ensures(charge, (cfg.initial_soc_pct, e, cfg.capacity_wh), r) && call_ensures(
                charge,
                (cfg.initial_soc_pct, f, cfg.capacity_wh),
                s,
            ) && e.spec_at_most(f) ==> r.spec_at_most(s),
    ensures
        zero().spec_at_most(before.power_w) ==> stood.spec_at_most(after.soc_pct),
        before.power_w.spec_at_most(zero()) ==> after.soc_pct.spec_at_most(stood),
{
    let soc = tick_follows_the_power(
        cfg,
        before,
        after,
        dt,
        integrate,
        charge,
        minus,
        plus,
        taper,
    );
    assert(call_ensures(charge, (cfg.initial_soc_pct, after.energy_wh, cfg.capacity_wh), soc));
}

/// The reported state tells the direction of the power: charging for a
/// positive one, discharging for a negative one, ready for none.
pub proof fn state_tells_the_direction(p: Scalar)
    ensures
        (state_text(p) == "charging"@) == (!p.spec_is_nan() && p.spec_rank() > 0),
        (state_text(p) == "discharging"@) == (!p.spec_is_nan() && p.spec_rank() < 0),
        (state_text(p) == "ready"@) == (p.spec_is_nan() || p.spec_rank() == 0),
{
    reveal_strlit("charging");
    reveal_strlit("discharging");
    reveal_strlit("ready");
    assert("charging"@.len() == 8 && "discharging"@.len() == 11 && "ready"@.len() == 5);
}

/// The reported DC power has the size of the apparent power and the sign of the
/// active one.
pub proof fn dc_power_has_the_sign_of_the_active_power(size: Scalar, p: Scalar)
    requires
        !p.spec_is_nan(),
        zero().spec_at_most(size),
    ensures
        signed_like(size, p).spec_absolute().spec_rank() == size.spec_rank(),
        p.spec_rank() >= 0 ==> signed_like(size, p).spec_rank() == size.spec_rank(),
        p.spec_rank() < 0 ==> signed_like(size, p).spec_rank() == -size.spec_rank(),
{
}

/// The limits of a tick follow the charge that the tick leads to: a battery that
/// is full takes nothing in, one that is empty gives nothing out, and one that
/// is far from both has its rating.
pub proof fn limits_follow_the_charge<
    I: Fn(Scalar, Scalar, Span) -> Scalar,
    C: Fn(Scalar, Scalar, Scalar) -> Scalar,
    M: Fn(Scalar, Scalar) -> Scalar,
    P: Fn(Scalar, Scalar) -> Scalar,
    T: Fn(Scalar, Scalar, Scalar, Scalar) -> Scalar,
>(
    cfg: BatteryConfig,
    before: BatteryState,
    after: BatteryState,
    dt: Span,
    integrate: I,
    charge: C,
    minus: M,
    plus: P,
    taper: T,
)
    requires
        battery_ticks(cfg, before, after, dt, integrate, charge, minus, plus, taper),
        zero().spec_below(cfg.soc_protect_margin_pct),
        ends_at_its_stop(taper),
        forall|a: Scalar, b: Scalar, d: Scalar| #[trigger]
            call_ensures(minus, (a, b), d) && a.spec_at_most(b) ==> d.spec_at_most(zero()),
        forall|start: Scalar| #[trigger]
            call_ensures(minus, (cfg.soc_upper_pct, cfg.soc_protect_margin_pct), start)
                ==> start.spec_below(cfg.soc_upper_pct),
        forall|start: Scalar| #[trigger]
            call_ensures(plus, (cfg.soc_lower_pct, cfg.soc_protect_margin_pct), start)
                ==> cfg.soc_lower_pct.spec_below(start),
    ensures
        cfg.soc_upper_pct.spec_at_most(after.soc_pct) ==> after.effective_upper_w.spec_rank() == 0,
        after.soc_pct.spec_at_most(cfg.soc_lower_pct) ==> after.effective_lower_w.spec_rank() == 0,
        (forall|gap: Scalar| #[trigger]
            call_ensures(minus, (cfg.soc_upper_pct, after.soc_pct), gap) ==> !gap.spec_below(
                cfg.soc_protect_margin_pct,
            )) ==> after.effective_upper_w == cfg.rated_upper_w,
        (forall|gap: Scalar| #[trigger]
            call_ensures(minus, (after.soc_pct, cfg.soc_lower_pct), gap) ==> !gap.spec_below(
                cfg.soc_protect_margin_pct,
            )) ==> after.effective_lower_w == cfg.rated_lower_w,
{
    let rated = (cfg.rated_lower_w, cfg.rated_upper_w);
    let limits = (after.effective_lower_w, after.effective_upper_w);
    let p = cfg.spec_protect();
    nothing_flows_past_a_limit(rated, after.soc_pct, p, minus, plus, taper, limits);
    rated_away_from_limits(rated, after.soc_pct, p, minus, plus, taper, limits);
}

/// The envelope of a battery holds the powers between its limits of the moment.
pub proof fn envelope_lies_between_the_limits(b: Battery, value: Scalar)
    requires
        !b.state.effective_lower_w.spec_is_nan(),
        !b.state.effective_upper_w.spec_is_nan(),
        !value.spec_is_nan(),
    ensures
        union_contains(b.spec_envelope(), value) <==> b.state.effective_lower_w.spec_at_most(value)
            && value.spec_at_most(b.state.effective_upper_w),
        b.state.effective_lower_w.spec_at_most(b.state.effective_upper_w) && union_contains(
            b.spec_envelope(),
            value,
        ) ==> b.spec_pushed(value, zero()).state.power_w == value,
{
    if union_contains(b.spec_envelope(), value) {
        let i = choose|i: int|
            0 <= i < b.spec_envelope().len() && #[trigger] b.spec_envelope()[i].spec_contains(
                value,
            );
        assert(i == 0);
    }
    if b.state.effective_lower_w.spec_at_most(value) && value.spec_at_most(
        b.state.effective_upper_w,
    ) {
        assert(b.spec_envelope()[0].spec_contains(value));
    }
}

/// A battery reports its charge and, on the DC side, its apparent power with the
/// sign of its active power; without a voltage there is no current.
pub proof fn battery_reports_its_state<
    A: Fn(Scalar, Scalar) -> Scalar,
    D: Fn(Scalar, Scalar) -> Scalar,
>(b: &Battery, apparent: &A, over: &D, out: Telemetry)
    requires
        call_ensures(Battery::telemetry::<A, D>, (b, apparent, over), out),
        !b.state.power_w.spec_is_nan(),
        forall|p: Scalar, q: Scalar, size: Scalar| #[trigger]
            call_ensures(*apparent, (p, q), size) ==> zero().spec_at_most(size),
    ensures
        out.id == b.id,
        out.soc_pct == Some(b.state.soc_pct),
        out.capacity_wh == Some(b.cfg.capacity_wh),
        out.dc_power_w matches Some(p) && (b.state.power_w.spec_rank() < 0 ==> p.spec_rank() <= 0)
            && (b.state.power_w.spec_rank() >= 0 ==> p.spec_rank() >= 0),
        b.cfg.voltage_v.spec_rank() == 0 ==> out.dc_current_a == Some(zero()),
        b.cfg.voltage_v.spec_rank() != 0 ==> (out.dc_current_a matches Some(i) && call_ensures(
            *over,
            (out.dc_power_w->0, b.cfg.voltage_v),
            i,
        )),
        out.active_power_w is None,
        out.active_power_bounds matches Some(e) && e@ == b.spec_envelope(),
        out.component_state matches Some(s) && s@ == state_text(b.state.power_w),
{
    let size = choose|size: Scalar| #[trigger]
        call_ensures(*apparent, (b.state.power_w, b.state.reactive_var), size) && out.dc_power_w
            == Some(signed_like(size, b.state.power_w));
    dc_power_has_the_sign_of_the_active_power(size, b.state.power_w);
}

} // verus!
