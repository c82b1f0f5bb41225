//! How a state of charge near its limits narrows the rated power.

use crate::scalar::{zero, Scalar};
use vstd::prelude::*;

verus! {

/// Where the protection starts.
#[derive(Clone, Copy, Debug)]
pub struct SocProtect {
    pub soc_lower_pct: Scalar,
    pub soc_upper_pct: Scalar,
    /// Width of the band before each limit in which the rated power tapers
    /// off; none where it is not positive.
    pub margin_pct: Scalar,
}

/// `out` is the charging limit at `soc`: rated, or tapered from the margin to
/// the upper limit. `minus` subtracts; `taper` scales a rating between a start
/// and a stop.
pub open spec fn upper_protected<
    M: Fn(Scalar, Scalar) -> Scalar,
    T: Fn(Scalar, Scalar, Scalar, Scalar) -> Scalar,
>(rated: Scalar, soc: Scalar, p: SocProtect, minus: M, taper: T, out: Scalar) -> bool {
    exists|gap: Scalar| #[trigger]
        call_ensures(minus, (p.soc_upper_pct, soc), gap) && if gap.spec_below(p.margin_pct) {
            exists|start: Scalar| #[trigger]
                call_ensures(minus, (p.soc_upper_pct, p.margin_pct), start) && call_ensures(
                    taper,
                    (rated, start, p.soc_upper_pct, soc),
                    out,
                )
        } else {
            out == rated
        }
}

/// `out` is the discharging limit at `soc`: rated, or tapered from the margin
/// to the lower limit.
pub open spec fn lower_protected<
    M: Fn(Scalar, Scalar) -> Scalar,
    P: Fn(Scalar, Scalar) -> Scalar,
    T: Fn(Scalar, Scalar, Scalar, Scalar) -> Scalar,
>(rated: Scalar, soc: Scalar, p: SocProtect, minus: M, plus: P, taper: T, out: Scalar) -> bool {
    exists|gap: Scalar| #[trigger]
        call_ensures(minus, (soc, p.soc_lower_pct), gap) && if gap.spec_below(p.margin_pct) {
            exists|start: Scalar| #[trigger]
                call_ensures(plus, (p.soc_lower_pct, p.margin_pct), start) && call_ensures(
                    taper,
                    (rated, start, p.soc_lower_pct, soc),
                    out,
                )
        } else {
            out == rated
        }
}

/// `out` is the rated pair as the state of charge narrows it; the pair itself
/// without a margin.
pub open spec fn is_protected<
    M: Fn(Scalar, Scalar) -> Scalar,
    P: Fn(Scalar, Scalar) -> Scalar,
    T: Fn(Scalar, Scalar, Scalar, Scalar) -> Scalar,
>(
    rated: (Scalar, Scalar),
    soc: Scalar,
    p: SocProtect,
    minus: M,
    plus: P,
    taper: T,
    out: (Scalar, Scalar),
) -> bool {
    if p.margin_pct.spec_at_most(zero()) {
        out == rated
    } else {
        upper_protected(rated.1, soc, p, minus, taper, out.1) && lower_protected(
            rated.0,
            soc,
            p,
            minus,
            plus,
            taper,
            out.0,
        )
    }
}

/// The rated pair as the state of charge narrows it.
pub fn soc_protected_bounds<
    M: Fn(Scalar, Scalar) -> Scalar,
    P: Fn(Scalar, Scalar) -> Scalar,
    T: Fn(Scalar, Scalar, Scalar, Scalar) -> Scalar,
>(
    rated_lower: Scalar,
    rated_upper: Scalar,
    soc: Scalar,
    p: SocProtect,
    minus: &M,
    plus: &P,
    taper: &T,
) -> (out: (Scalar, Scalar))
    requires
        forall|a: Scalar, b: Scalar| call_requires(*minus, (a, b)),
        forall|a: Scalar, b: Scalar| call_requires(*plus, (a, b)),
        forall|a: Scalar, b: Scalar, c: Scalar, d: Scalar| call_requires(*taper, (a, b, c, d)),
    ensures
        is_protected((rated_lower, rated_upper), soc, p, *minus, *plus, *taper, out),
{
    if p.margin_pct.at_most(zero()) {
        return (rated_lower, rated_upper);
    }
    let above = minus(p.soc_upper_pct, soc);
    assert(call_ensures(*minus, (p.soc_upper_pct, soc), above));
    let upper = if above.below(p.margin_pct) {
        let start = minus(p.soc_upper_pct, p.margin_pct);
        assert(call_ensures(*minus, (p.soc_upper_pct, p.margin_pct), start));
        taper(rated_upper, start, p.soc_upper_pct, soc)
    } else {
        rated_upper
    };
    assert(upper_protected(rated_upper, soc, p, *minus, *taper, upper));
    let below = minus(soc, p.soc_lower_pct);
    assert(call_ensures(*minus, (soc, p.soc_lower_pct), below));
    let lower = if below.below(p.margin_pct) {
        let start = plus(p.soc_lower_pct, p.margin_pct);
        assert(call_ensures(*plus, (p.soc_lower_pct, p.margin_pct), start));
        taper(rated_lower, start, p.soc_lower_pct, soc)
    } else {
        rated_lower
    };
    (lower, upper)
}

/// `part` lies between nothing and `rated`, on the side of `rated`.
pub open spec fn is_part_of(part: Scalar, rated: Scalar) -> bool {
    (zero().spec_at_most(part) && part.spec_at_most(rated)) || (rated.spec_at_most(part)
        && part.spec_at_most(zero()))
}

/// Protection only narrows: with a taper that gives a part of the rating, each
/// protected limit is a part of the rated one.
pub proof fn protection_only_narrows<
    M: Fn(Scalar, Scalar) -> Scalar,
    P: Fn(Scalar, Scalar) -> Scalar,
    T: Fn(Scalar, Scalar, Scalar, Scalar) -> Scalar,
>(
    rated: (Scalar, Scalar),
    soc: Scalar,
    p: SocProtect,
    minus: M,
    plus: P,
    taper: T,
    out: (Scalar, Scalar),
)
    requires
        !rated.0.spec_is_nan(),
        !rated.1.spec_is_nan(),
        is_protected(rated, soc, p, minus, plus, taper, out),
        forall|r: Scalar, start: Scalar, stop: Scalar, at: Scalar, part: Scalar| #[trigger]
            call_ensures(taper, (r, start, stop, at), part) && !r.spec_is_nan() ==> is_part_of(
                part,
                r,
            ),
    ensures
        is_part_of(out.0, rated.0),
        is_part_of(out.1, rated.1),
{
}

/// Away from both limits the rated pair holds: where the state of charge is at
/// least the margin below the upper limit, charging is not narrowed, and where
/// it is at least the margin above the lower limit, discharging is not.
pub proof fn rated_away_from_limits<
    M: Fn(Scalar, Scalar) -> Scalar,
    P: Fn(Scalar, Scalar) -> Scalar,
    T: Fn(Scalar, Scalar, Scalar, Scalar) -> Scalar,
>(
    rated: (Scalar, Scalar),
    soc: Scalar,
    p: SocProtect,
    minus: M,
    plus: P,
    taper: T,
    out: (Scalar, Scalar),
)
    requires
        is_protected(rated, soc, p, minus, plus, taper, out),
    ensures
        (forall|gap: Scalar| #[trigger]
            call_ensures(minus, (p.soc_upper_pct, soc), gap) ==> !gap.spec_below(p.margin_pct))
            ==> out.1 == rated.1,
        (forall|gap: Scalar| #[trigger]
            call_ensures(minus, (soc, p.soc_lower_pct), gap) ==> !gap.spec_below(p.margin_pct))
            ==> out.0 == rated.0,
{
}

/// Near a limit the taper rules, at the limit and beyond it too: where the
/// state of charge is less than the margin from a limit, what the taper gives
/// for that state of charge is the limit of the power.
pub proof fn taper_rules_near_the_limits<
    M: Fn(Scalar, Scalar) -> Scalar,
    P: Fn(Scalar, Scalar) -> Scalar,
    T: Fn(Scalar, Scalar, Scalar, Scalar) -> Scalar,
>(
    rated: (Scalar, Scalar),
    soc: Scalar,
    p: SocProtect,
    minus: M,
    plus: P,
    taper: T,
    out: (Scalar, Scalar),
)
    requires
        is_protected(rated, soc, p, minus, plus, taper, out),
        zero().spec_below(p.margin_pct),
    ensures
        (forall|gap: Scalar| #[trigger]
            call_ensures(minus, (p.soc_upper_pct, soc), gap) ==> gap.spec_below(p.margin_pct))
            ==> exists|start: Scalar| #[trigger]
            call_ensures(minus, (p.soc_upper_pct, p.margin_pct), start) && call_ensures(
                taper,
                (rated.1, start, p.soc_upper_pct, soc),
                out.1,
            ),
        (forall|gap: Scalar| #[trigger]
            call_ensures(minus, (soc, p.soc_lower_pct), gap) ==> gap.spec_below(p.margin_pct))
            ==> exists|start: Scalar| #[trigger]
            call_ensures(plus, (p.soc_lower_pct, p.margin_pct), start) && call_ensures(
                taper,
                (rated.0, start, p.soc_lower_pct, soc),
                out.0,
            ),
{
}

/// A taper that gives nothing at its stop and past it, seen from its start.
pub open spec fn ends_at_its_stop<T: Fn(Scalar, Scalar, Scalar, Scalar) -> Scalar>(
    taper: T,
) -> bool {
    forall|r: Scalar, start: Scalar, stop: Scalar, at: Scalar, part: Scalar| #[trigger]
        call_ensures(taper, (r, start, stop, at), part) && ((start.spec_below(stop)
            && stop.spec_at_most(at)) || (stop.spec_below(start) && at.spec_at_most(stop)))
            ==> part.spec_rank() == 0 && !part.spec_is_nan()
}

/// A full battery is not charged and an empty one is not discharged: with a
/// margin, and a taper that ends at its stop, the charging limit is zero at the
/// upper limit and above it, and the discharging limit is zero at the lower
/// limit and below it. The differences have the sign that the order of their
/// operands gives them.
pub proof fn nothing_flows_past_a_limit<
    M: Fn(Scalar, Scalar) -> Scalar,
    P: Fn(Scalar, Scalar) -> Scalar,
    T: Fn(Scalar, Scalar, Scalar, Scalar) -> Scalar,
>(
    rated: (Scalar, Scalar),
    soc: Scalar,
    p: SocProtect,
    minus: M,
    plus: P,
    taper: T,
    out: (Scalar, Scalar),
)
    requires
        is_protected(rated, soc, p, minus, plus, taper, out),
        zero().spec_below(p.margin_pct),
        ends_at_its_stop(taper),
        forall|a: Scalar, b: Scalar, d: Scalar| #[trigger]
            call_ensures(minus, (a, b), d) && a.spec_at_most(b) ==> d.spec_at_most(zero()),
        forall|start: Scalar| #[trigger]
            call_ensures(minus, (p.soc_upper_pct, p.margin_pct), start) ==> start.spec_below(
                p.soc_upper_pct,
            ),
        forall|start: Scalar| #[trigger]
            call_ensures(plus, (p.soc_lower_pct, p.margin_pct), start)
                ==> p.soc_lower_pct.spec_below(start),
    ensures
        p.soc_upper_pct.spec_at_most(soc) ==> out.1.spec_rank() == 0 && !out.1.spec_is_nan(),
        soc.spec_at_most(p.soc_lower_pct) ==> out.0.spec_rank() == 0 && !out.0.spec_is_nan(),
{
    taper_rules_near_the_limits(rated, soc, p, minus, plus, taper, out);
    if p.soc_upper_pct.spec_at_most(soc) {
        assert forall|gap: Scalar| #[trigger]
            call_ensures(minus, (p.soc_upper_pct, soc), gap) implies gap.spec_below(
            p.margin_pct,
        ) by {}
        let start = choose|start: Scalar| #[trigger]
            call_ensures(minus, (p.soc_upper_pct, p.margin_pct), start) && call_ensures(
                taper,
                (rated.1, start, p.soc_upper_pct, soc),
                out.1,
            );
        assert(call_ensures(taper, (rated.1, start, p.soc_upper_pct, soc), out.1));
    }
    if soc.spec_at_most(p.soc_lower_pct) {
        assert forall|gap: Scalar| #[trigger]
            call_ensures(minus, (soc, p.soc_lower_pct), gap) implies gap.spec_below(
            p.margin_pct,
        ) by {}
        let start = choose|start: Scalar| #[trigger]
            call_ensures(plus, (p.soc_lower_pct, p.margin_pct), start) && call_ensures(
                taper,
                (rated.0, start, p.soc_lower_pct, soc),
                out.0,
            );
        assert(call_ensures(taper, (rated.0, start, p.soc_lower_pct, soc), out.0));
    }
}

/// Without a margin the rated limits hold at every state of charge.
pub proof fn without_a_margin_the_rating_holds<
    M: Fn(Scalar, Scalar) -> Scalar,
    P: Fn(Scalar, Scalar) -> Scalar,
    T: Fn(Scalar, Scalar, Scalar, Scalar) -> Scalar,
>(
    rated: (Scalar, Scalar),
    soc: Scalar,
    p: SocProtect,
    minus: M,
    plus: P,
    taper: T,
    out: (Scalar, Scalar),
)
    requires
        is_protected(rated, soc, p, minus, plus, taper, out),
        p.margin_pct.spec_at_most(zero()),
    ensures
        out.0 == rated.0,
        out.1 == rated.1,
{
}

} // verus!
