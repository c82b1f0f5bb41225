//! Components and the telemetry they publish.

use crate::bounds::{Bounds, VecBounds};
use crate::history::{charted, Metric};
use crate::scalar::Scalar;
use crate::text::{decimal_text, push_decimal};
use vstd::prelude::*;

verus! {

/// First automatically allocated component id; explicit ids stay below.
pub const FIRST_AUTO_ID: u64 = 1000;

/// High-level kind of a component.
#[derive(Clone, Copy, Debug, PartialEq, Eq, Structural)]
pub enum Category {
    Grid,
    Meter,
    Inverter,
    Battery,
    EvCharger,
    Chp,
}

impl Category {
    pub open spec fn spec_label(self) -> Seq<char> {
        match self {
            Category::Grid => "grid"@,
            Category::Meter => "meter"@,
            Category::Inverter => "inverter"@,
            Category::Battery => "battery"@,
            Category::EvCharger => "ev-charger"@,
            Category::Chp => "chp"@,
        }
    }
}

/// The lower-case name of a category, as the topology view shows it.
pub fn category_label(c: Category) -> (out: &'static str)
    ensures
        out@ == c.spec_label(),
{
    match c {
        Category::Grid => "grid",
        Category::Meter => "meter",
        Category::Inverter => "inverter",
        Category::Battery => "battery",
        Category::EvCharger => "ev-charger",
        Category::Chp => "chp",
    }
}

/// What one component publishes at one moment. A field that its kind does not
/// have is absent.
#[derive(Debug)]
pub struct Telemetry {
    pub id: u64,
    pub category: Option<Category>,
    pub active_power_w: Option<Scalar>,
    pub reactive_power_var: Option<Scalar>,
    pub per_phase_active_w: Option<(Scalar, Scalar, Scalar)>,
    pub per_phase_reactive_var: Option<(Scalar, Scalar, Scalar)>,
    pub per_phase_voltage_v: Option<(Scalar, Scalar, Scalar)>,
    pub per_phase_current_a: Option<(Scalar, Scalar, Scalar)>,
    pub frequency_hz: Option<Scalar>,
    pub soc_pct: Option<Scalar>,
    pub soc_lower_pct: Option<Scalar>,
    pub soc_upper_pct: Option<Scalar>,
    pub capacity_wh: Option<Scalar>,
    pub dc_voltage_v: Option<Scalar>,
    pub dc_current_a: Option<Scalar>,
    pub dc_power_w: Option<Scalar>,
    pub active_power_bounds: Option<VecBounds>,
    /// Reactive envelope at the current active power.
    pub reactive_power_bounds: Option<(Scalar, Scalar)>,
    pub component_state: Option<&'static str>,
    pub relay_state: Option<&'static str>,
    pub cable_state: Option<&'static str>,
}

impl Telemetry {
    /// Nothing but the identity is published.
    pub open spec fn publishes_nothing(self) -> bool {
        &&& self.active_power_w is None
        &&& self.reactive_power_var is None
        &&& self.per_phase_active_w is None
        &&& self.per_phase_reactive_var is None
        &&& self.per_phase_voltage_v is None
        &&& self.per_phase_current_a is None
        &&& self.frequency_hz is None
        &&& self.soc_pct is None
        &&& self.soc_lower_pct is None
        &&& self.soc_upper_pct is None
        &&& self.capacity_wh is None
        &&& self.dc_voltage_v is None
        &&& self.dc_current_a is None
        &&& self.dc_power_w is None
        &&& self.active_power_bounds is None
        &&& self.reactive_power_bounds is None
        &&& self.component_state is None
        &&& self.relay_state is None
        &&& self.cable_state is None
    }

    /// A snapshot that publishes only who it is from.
    pub fn identity(id: u64, category: Option<Category>) -> (out: Telemetry)
        ensures
            out.id == id,
            out.category == category,
            out.publishes_nothing(),
    {
        Telemetry {
            id,
            category,
            active_power_w: None,
            reactive_power_var: None,
            per_phase_active_w: None,
            per_phase_reactive_var: None,
            per_phase_voltage_v: None,
            per_phase_current_a: None,
            frequency_hz: None,
            soc_pct: None,
            soc_lower_pct: None,
            soc_upper_pct: None,
            capacity_wh: None,
            dc_voltage_v: None,
            dc_current_a: None,
            dc_power_w: None,
            active_power_bounds: None,
            reactive_power_bounds: None,
            component_state: None,
            relay_state: None,
            cable_state: None,
        }
    }

    /// The value of one metric. The active-power bounds read as the extremes
    /// of the envelope: the first interval's lower side and the last
    /// interval's upper side.
    pub open spec fn spec_metric_value(self, metric: Metric) -> Option<Scalar> {
        match metric {
            Metric::ActivePowerW => self.active_power_w,
            Metric::ReactivePowerVar => self.reactive_power_var,
            Metric::FrequencyHz => self.frequency_hz,
            Metric::SocPct => self.soc_pct,
            Metric::DcPowerW => self.dc_power_w,
            Metric::ActivePowerLowerBoundW => match self.active_power_bounds {
                Some(b) if b@.len() > 0 => b@[0].lower,
                _ => None,
            },
            Metric::ActivePowerUpperBoundW => match self.active_power_bounds {
                Some(b) if b@.len() > 0 => b@.last().upper,
                _ => None,
            },
            Metric::ReactivePowerLowerBoundVar => match self.reactive_power_bounds {
                Some((l, _)) => Some(l),
                None => None,
            },
            Metric::ReactivePowerUpperBoundVar => match self.reactive_power_bounds {
                Some((_, u)) => Some(u),
                None => None,
            },
        }
    }

    pub fn metric_value(&self, metric: Metric) -> (out: Option<Scalar>)
        ensures
            out == self.spec_metric_value(metric),
    {
        match metric {
            Metric::ActivePowerW => self.active_power_w,
            Metric::ReactivePowerVar => self.reactive_power_var,
            Metric::FrequencyHz => self.frequency_hz,
            Metric::SocPct => self.soc_pct,
            Metric::DcPowerW => self.dc_power_w,
            Metric::ActivePowerLowerBoundW => match &self.active_power_bounds {
                Some(b) => if b.0.len() > 0 {
                    b.0[0].lower
                } else {
                    None
                },
                None => None,
            },
            Metric::ActivePowerUpperBoundW => match &self.active_power_bounds {
                Some(b) => if b.0.len() > 0 {
                    b.0[b.0.len() - 1].upper
                } else {
                    None
                },
                None => None,
            },
            Metric::ReactivePowerLowerBoundVar => match self.reactive_power_bounds {
                Some((l, _)) => Some(l),
                None => None,
            },
            Metric::ReactivePowerUpperBoundVar => match self.reactive_power_bounds {
                Some((_, u)) => Some(u),
                None => None,
            },
        }
    }
}

impl Default for Telemetry {
    fn default() -> (out: Self)
        ensures
            out.id == 0,
            out.category is None,
            out.publishes_nothing(),
    {
        Telemetry::identity(0, None)
    }
}

/// Why a setpoint was refused.
#[derive(Debug)]
pub enum SetpointError {
    /// The value lies outside the effective envelope: rated, narrowed by live
    /// augmentations.
    OutOfBounds { value: Scalar, envelope: VecBounds },
    /// The component type does not take this operation.
    Unsupported,
}

/// How one interval reads: both sides in brackets, an open side as `*`.
pub open spec fn interval_text(lower: Seq<char>, upper: Seq<char>) -> Seq<char> {
    "["@ + lower + ", "@ + upper + "]"@
}

/// `text` is how one side of an interval reads, `show` writing the number.
pub open spec fn side_reads<F: Fn(Scalar) -> String>(
    show: F,
    side: Option<Scalar>,
    text: Seq<char>,
) -> bool {
    match side {
        Some(v) => exists|t: String| #[trigger] call_ensures(show, (v,), t) && t@ == text,
        None => text == "*"@,
    }
}

/// `text` is how one interval reads.
pub open spec fn interval_reads<F: Fn(Scalar) -> String>(
    show: F,
    b: Bounds,
    text: Seq<char>,
) -> bool {
    exists|l: Seq<char>, u: Seq<char>|
        #![trigger side_reads(show, b.lower, l), side_reads(show, b.upper, u)]
        side_reads(show, b.lower, l) && side_reads(show, b.upper, u) && text == interval_text(l, u)
}

/// `text` is how a union reads: its intervals separated by commas, or `[]`.
pub open spec fn union_reads<F: Fn(Scalar) -> String>(
    show: F,
    bounds: Seq<Bounds>,
    text: Seq<char>,
) -> bool
    decreases bounds.len(),
{
    if bounds.len() == 0 {
        text == "[]"@
    } else if bounds.len() == 1 {
        interval_reads(show, bounds[0], text)
    } else {
        exists|head: Seq<char>, last: Seq<char>|
            #![trigger interval_reads(show, bounds.last(), last), head.len()]
            union_reads(show, bounds.drop_last(), head) && interval_reads(
                show,
                bounds.last(),
                last,
            ) && text == head + ", "@ + last
    }
}

pub fn side_text<F: Fn(Scalar) -> String>(side: Option<Scalar>, show: &F) -> (out: String)
    requires
        forall|v: Scalar| call_requires(*show, (v,)),
    ensures
        side_reads(*show, side, out@),
{
    match side {
        Some(v) => {
            let text = show(v);
            assert(call_ensures(*show, (v,), text));
            text
        },
        None => String::from_str("*"),
    }
}

fn interval_string<F: Fn(Scalar) -> String>(b: &Bounds, show: &F) -> (out: String)
    requires
        forall|v: Scalar| call_requires(*show, (v,)),
    ensures
        interval_reads(*show, *b, out@),
{
    let lower = side_text(b.lower, show);
    let upper = side_text(b.upper, show);
    let mut out = String::from_str("[");
    out.append(lower.as_str());
    out.append(", ");
    out.append(upper.as_str());
    out.append("]");
    assert(side_reads(*show, b.lower, lower@) && side_reads(*show, b.upper, upper@));
    out
}

/// A union as text, `show` writing the numbers.
pub fn bounds_text<F: Fn(Scalar) -> String>(bounds: &VecBounds, show: &F) -> (out: String)
    requires
        forall|v: Scalar| call_requires(*show, (v,)),
    ensures
        union_reads(*show, bounds@, out@),
{
    if bounds.0.len() == 0 {
        return String::from_str("[]");
    }
    let mut out = interval_string(&bounds.0[0], show);
    let mut i: usize = 1;
    assert(bounds@.subrange(0, 1)[0] == bounds@[0]);
    while i < bounds.0.len()
        invariant
            1 <= i <= bounds.0.len(),
            forall|v: Scalar| call_requires(*show, (v,)),
            union_reads(*show, bounds@.subrange(0, i as int), out@),
        decreases bounds.0.len() - i,
    {
        let ghost head = out@;
        let next = interval_string(&bounds.0[i], show);
        let ghost seen = bounds@.subrange(0, i + 1);
        assert(seen.drop_last() =~= bounds@.subrange(0, i as int));
        assert(seen.last() == bounds@[i as int]);
        out.append(", ");
        out.append(next.as_str());
        assert(interval_reads(*show, seen.last(), next@) && head.len() >= 0);
        i = i + 1;
    }
    assert(bounds@.subrange(0, bounds@.len() as int) =~= bounds@);
    out
}

impl SetpointError {
    /// The message a client sees, `show` writing the numbers.
    pub fn message<F: Fn(Scalar) -> String>(&self, show: &F) -> (out: String)
        requires
            forall|v: Scalar| call_requires(*show, (v,)),
        ensures
            match self {
                SetpointError::Unsupported => out@
                    == "operation not supported by this component type"@,
                SetpointError::OutOfBounds { value, envelope } => exists|
                    v: Seq<char>,
                    e: Seq<char>,
                |
                    #![trigger side_reads(*show, Some(*value), v), union_reads(*show, envelope@, e)]
                    side_reads(*show, Some(*value), v) && union_reads(*show, envelope@, e) && out@
                        == "set-point "@ + v + " W out of bounds "@ + e,
            },
    {
        match self {
            SetpointError::Unsupported => String::from_str(
                "operation not supported by this component type",
            ),
            SetpointError::OutOfBounds { value, envelope } => {
                let v = side_text(Some(*value), show);
                let e = bounds_text(envelope, show);
                let mut out = String::from_str("set-point ");
                out.append(v.as_str());
                out.append(" W out of bounds ");
                out.append(e.as_str());
                assert(side_reads(*show, Some(*value), v@) && union_reads(*show, envelope@, e@));
                out
            },
        }
    }
}

/// A combined heat and power generator; its parent meter carries the flow.
#[derive(Debug)]
pub struct Chp {
    pub id: u64,
    pub name: String,
}

impl Chp {
    pub fn new(id: u64) -> (out: Self)
        ensures
            out.id == id,
            out.name@ == "chp-"@ + decimal_text(id as nat),
    {
        let name = numbered_name("chp-", id);
        Chp { id, name }
    }

    /// A generator publishes only who it is.
    pub fn telemetry(&self) -> (out: Telemetry)
        ensures
            out.id == self.id,
            out.category == Some(Category::Chp),
            out.publishes_nothing(),
    {
        Telemetry::identity(self.id, Some(Category::Chp))
    }
}

/// `prefix` followed by the digits of `id`.
pub fn numbered_name(prefix: &str, id: u64) -> (out: String)
    ensures
        out@ == prefix@ + decimal_text(id as nat),
{
    let mut out = String::from_str(prefix);
    push_decimal(&mut out, id);
    out
}

/// The grid connection point.
#[derive(Debug)]
pub struct Grid {
    pub id: u64,
    pub name: String,
    pub rated_fuse_current: u32,
    pub rated_active_bounds: Option<(Scalar, Scalar)>,
    pub stream_jitter_pct: Scalar,
}

impl Grid {
    pub fn new(
        id: u64,
        rated_fuse_current: u32,
        rated_active_bounds: Option<(Scalar, Scalar)>,
        stream_jitter_pct: Scalar,
    ) -> (out: Self)
        ensures
            out.id == id,
            out.name@ == "grid-"@ + decimal_text(id as nat),
            out.rated_fuse_current == rated_fuse_current,
            out.rated_active_bounds == rated_active_bounds,
            out.stream_jitter_pct == stream_jitter_pct,
    {
        let name = numbered_name("grid-", id);
        Grid { id, name, rated_fuse_current, rated_active_bounds, stream_jitter_pct }
    }

    /// The connection point publishes only who it is; electrical readings
    /// belong to the meter below it.
    pub fn telemetry(&self) -> (out: Telemetry)
        ensures
            out.id == self.id,
            out.category == Some(Category::Grid),
            out.publishes_nothing(),
    {
        Telemetry::identity(self.id, Some(Category::Grid))
    }
}

/// A metric reads its own value, and the power bounds the extremes of the
/// envelope: the lower side of its first interval and the upper side of its
/// last.
pub proof fn metrics_read_the_snapshot(t: Telemetry)
    ensures
        t.spec_metric_value(Metric::ActivePowerW) == t.active_power_w,
        t.spec_metric_value(Metric::ReactivePowerVar) == t.reactive_power_var,
        t.spec_metric_value(Metric::FrequencyHz) == t.frequency_hz,
        t.spec_metric_value(Metric::SocPct) == t.soc_pct,
        t.spec_metric_value(Metric::DcPowerW) == t.dc_power_w,
        t.active_power_bounds matches Some(b) ==> (b@.len() > 0 ==> t.spec_metric_value(
            Metric::ActivePowerLowerBoundW,
        ) == b@.first().lower && t.spec_metric_value(Metric::ActivePowerUpperBoundW)
            == b@[b@.len() - 1].upper),
        t.reactive_power_bounds matches Some(r) ==> t.spec_metric_value(
            Metric::ReactivePowerLowerBoundVar,
        ) == Some(r.0) && t.spec_metric_value(Metric::ReactivePowerUpperBoundVar) == Some(r.1),
        t.active_power_bounds is None ==> t.spec_metric_value(
            Metric::ActivePowerLowerBoundW,
        ) is None && t.spec_metric_value(Metric::ActivePowerUpperBoundW) is None,
        t.reactive_power_bounds is None ==> t.spec_metric_value(
            Metric::ReactivePowerLowerBoundVar,
        ) is None && t.spec_metric_value(Metric::ReactivePowerUpperBoundVar) is None,
        t.publishes_nothing() ==> forall|m: Metric| #[trigger] t.spec_metric_value(m) is None,
{
}

/// A snapshot charts what its metrics read, but for DC power, which is not
/// charted, and the upper power bound of an envelope with several intervals.
pub proof fn charts_agree_with_metrics(t: Telemetry, m: Metric)
    ensures
        m != Metric::DcPowerW && m != Metric::ActivePowerUpperBoundW ==> charted(t, m)
            == t.spec_metric_value(m),
        m == Metric::ActivePowerUpperBoundW && (t.active_power_bounds matches Some(b) ==> b@.len()
            <= 1) ==> charted(t, m) == t.spec_metric_value(m),
{
}

/// An interval reads in brackets, its lower side first, and a side that is open
/// as a star.
pub proof fn interval_reads_in_brackets<F: Fn(Scalar) -> String>(show: F, l: Seq<char>, u: Seq<char>)
    ensures
        interval_text(l, u).len() == l.len() + u.len() + 4,
        interval_text(l, u)[0] == '[',
        interval_text(l, u).subrange(1, l.len() as int + 1) == l,
        interval_text(l, u).subrange(l.len() as int + 3, (l.len() + u.len()) as int + 3) == u,
        interval_text(l, u).last() == ']',
        side_reads(show, None, l) <==> l == seq!['*'],
{
    reveal_strlit("[");
    reveal_strlit(", ");
    reveal_strlit("]");
    reveal_strlit("*");
    assert("*"@ =~= seq!['*']);
    assert(interval_text(l, u).subrange(1, l.len() as int + 1) =~= l);
    assert(interval_text(l, u).subrange(l.len() as int + 3, (l.len() + u.len()) as int + 3) =~= u);
}

/// A union of one interval reads as that interval, and one more interval stands
/// behind a comma at the end.
pub proof fn union_lists_its_intervals<F: Fn(Scalar) -> String>(
    show: F,
    bounds: Seq<Bounds>,
    b: Bounds,
    head: Seq<char>,
    text: Seq<char>,
)
    ensures
        union_reads(show, Seq::empty(), text) <==> text == "[]"@,
        union_reads(show, seq![b], text) <==> interval_reads(show, b, text),
        bounds.len() > 0 && union_reads(show, bounds, head) && interval_reads(show, b, text)
            ==> union_reads(show, bounds.push(b), head + ", "@ + text),
{
    reveal_with_fuel(union_reads, 2);
    assert(seq![b][0] == b);
    if bounds.len() > 0 && union_reads(show, bounds, head) && interval_reads(show, b, text) {
        assert(bounds.push(b).drop_last() =~= bounds);
        assert(bounds.push(b).last() == b);
        assert(interval_reads(show, bounds.push(b).last(), text) && head.len() >= 0);
    }
}

/// No two categories share a label.
pub proof fn category_labels_are_distinct(a: Category, b: Category)
    requires
        a.spec_label() == b.spec_label(),
    ensures
        a == b,
{
    reveal_strlit("grid");
    reveal_strlit("meter");
    reveal_strlit("inverter");
    reveal_strlit("battery");
    reveal_strlit("ev-charger");
    reveal_strlit("chp");
    assert("grid"@[0] == 'g' && "meter"@[0] == 'm' && "inverter"@[0] == 'i');
    assert("battery"@[0] == 'b' && "ev-charger"@[0] == 'e' && "chp"@[0] == 'c');
}

} // verus!
