//! What a component on the AC side reports.

use crate::component::{Category, Telemetry};
use crate::scalar::Scalar;
use crate::site::GridState;
use vstd::prelude::*;

verus! {

/// One value per phase.
pub type Phases = (Scalar, Scalar, Scalar);

/// `t` reports the active power `p` and the reactive power `q` on the grid,
/// in total and per phase. `split` divides a total over the phases, `current`
/// is the apparent current of active and reactive parts.
pub open spec fn reads_ac<S: Fn(Scalar, Phases) -> Phases, C: Fn(Phases, Phases, Phases) -> Phases>(
    t: Telemetry,
    p: Scalar,
    q: Scalar,
    grid: GridState,
    split: S,
    current: C,
) -> bool {
    &&& t.active_power_w == Some(p)
    &&& t.reactive_power_var == Some(q)
    &&& t.per_phase_active_w is Some
    &&& call_ensures(split, (p, grid.voltage_per_phase), t.per_phase_active_w->0)
    &&& t.per_phase_reactive_var is Some
    &&& call_ensures(split, (q, grid.voltage_per_phase), t.per_phase_reactive_var->0)
    &&& t.per_phase_voltage_v == Some(grid.voltage_per_phase)
    &&& t.per_phase_current_a is Some
    &&& call_ensures(
        current,
        (t.per_phase_active_w->0, t.per_phase_reactive_var->0, grid.voltage_per_phase),
        t.per_phase_current_a->0,
    )
    &&& t.frequency_hz == Some(grid.frequency_hz)
}

/// Nothing about charge, DC or states is reported.
pub open spec fn is_ac_only(t: Telemetry) -> bool {
    &&& t.soc_pct is None
    &&& t.soc_lower_pct is None
    &&& t.soc_upper_pct is None
    &&& t.capacity_wh is None
    &&& t.dc_voltage_v is None
    &&& t.dc_current_a is None
    &&& t.dc_power_w is None
    &&& t.relay_state is None
    &&& t.cable_state is None
}

/// The AC readings of a component.
pub fn ac_telemetry<S: Fn(Scalar, Phases) -> Phases, C: Fn(Phases, Phases, Phases) -> Phases>(
    id: u64,
    category: Category,
    p: Scalar,
    q: Scalar,
    grid: &GridState,
    split: &S,
    current: &C,
) -> (out: Telemetry)
    requires
        forall|a: Scalar, v: Phases| call_requires(*split, (a, v)),
        forall|a: Phases, b: Phases, v: Phases| call_requires(*current, (a, b, v)),
    ensures
        out.id == id,
        out.category == Some(category),
        reads_ac(out, p, q, *grid, *split, *current),
        is_ac_only(out),
        out.active_power_bounds is None,
        out.reactive_power_bounds is None,
        out.component_state is None,
{
    let pp = split(p, grid.voltage_per_phase);
    let qq = split(q, grid.voltage_per_phase);
    let amps = current(pp, qq, grid.voltage_per_phase);
    let mut out = Telemetry::identity(id, Some(category));
    out.active_power_w = Some(p);
    out.reactive_power_var = Some(q);
    out.per_phase_active_w = Some(pp);
    out.per_phase_reactive_var = Some(qq);
    out.per_phase_voltage_v = Some(grid.voltage_per_phase);
    out.per_phase_current_a = Some(amps);
    out.frequency_hz = Some(grid.frequency_hz);
    out
}

/// Where a split shares out the whole, the phases make up the total, for active
/// and for reactive power alike; the voltages and the frequency are the grid's.
pub proof fn phases_make_up_the_total<
    S: Fn(Scalar, Phases) -> Phases,
    C: Fn(Phases, Phases, Phases) -> Phases,
>(
    t: Telemetry,
    p: Scalar,
    q: Scalar,
    grid: GridState,
    split: S,
    current: C,
    value: spec_fn(Scalar) -> int,
)
    requires
        reads_ac(t, p, q, grid, split, current),
        forall|total: Scalar, volts: Phases, r: Phases| #[trigger]
            call_ensures(split, (total, volts), r) ==> value(r.0) + value(r.1) + value(r.2)
                == value(total),
    ensures
        t.active_power_w == Some(p),
        t.reactive_power_var == Some(q),
        t.per_phase_active_w matches Some(a) && value(a.0) + value(a.1) + value(a.2) == value(p),
        t.per_phase_reactive_var matches Some(r) && value(r.0) + value(r.1) + value(r.2) == value(
            q,
        ),
        t.per_phase_voltage_v == Some(grid.voltage_per_phase),
        t.frequency_hz == Some(grid.frequency_hz),
        t.per_phase_current_a matches Some(i) && call_ensures(
            current,
            (t.per_phase_active_w->0, t.per_phase_reactive_var->0, grid.voltage_per_phase),
            i,
        ),
{
}

/// A component on the AC side reports nothing about charge, the DC side, relays
/// or cables.
pub proof fn ac_side_reports_no_charge(t: Telemetry)
    requires
        is_ac_only(t),
    ensures
        t.soc_pct is None && t.soc_lower_pct is None && t.soc_upper_pct is None,
        t.capacity_wh is None,
        t.dc_voltage_v is None && t.dc_current_a is None && t.dc_power_w is None,
        t.relay_state is None && t.cable_state is None,
{
}

} // verus!
