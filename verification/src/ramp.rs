//! Two control-loop primitives of components that do not follow a set-point
//! at once: a command delay and a slew-rate limit.

use crate::scalar::{zero, Scalar, SIGN};
use crate::time::{Moment, Span};
use vstd::prelude::*;

verus! {

/// Holds a set-point back until a delay has passed.
#[derive(Debug)]
pub struct CommandDelay {
    pub pending: Option<(Moment, Scalar)>,
    pub armed: Option<Scalar>,
    pub delay: Span,
}

impl CommandDelay {
    /// The pending command was given at an instant of the calendar.
    pub open spec fn wf(self) -> bool {
        self.pending matches Some(p) ==> p.0.in_calendar()
    }

    /// The pending command's delay is over at `now`.
    pub open spec fn is_due(self, now: Moment) -> bool {
        self.pending matches Some(p) && p.0.nanos + self.delay.spec_delta() <= now.nanos
    }

    /// The state after looking at the clock: a due command is armed.
    pub open spec fn spec_polled(self, now: Moment) -> CommandDelay {
        if self.is_due(now) {
            CommandDelay { pending: None, armed: Some((self.pending->0).1), delay: self.delay }
        } else {
            self
        }
    }

    /// The state after a command: armed at once without a delay, else pending
    /// in place of any earlier command that was.
    pub open spec fn spec_commanded(self, now: Moment, value: Scalar) -> CommandDelay {
        if self.delay.nanos == 0 {
            CommandDelay { pending: None, armed: Some(value), delay: self.delay }
        } else {
            CommandDelay { pending: Some((now, value)), ..self }
        }
    }

    pub fn new(delay: Span) -> (out: Self)
        ensures
            out == (CommandDelay { pending: None, armed: None, delay }),
            out.wf(),
    {
        CommandDelay { pending: None, armed: None, delay }
    }

    pub fn delay(&self) -> (out: Span)
        ensures
            out == self.delay,
    {
        self.delay
    }

    pub fn set_target(&mut self, now: Moment, value: Scalar)
        requires
            old(self).wf(),
            now.in_calendar(),
        ensures
            final(self).wf(),
            *final(self) == old(self).spec_commanded(now, value),
    {
        if self.delay.nanos == 0 {
            self.armed = Some(value);
            self.pending = None;
        } else {
            self.pending = Some((now, value));
        }
    }

    /// Arms a due command and returns the armed value, if any.
    pub fn poll(&mut self, now: Moment) -> (out: Option<Scalar>)
        requires
            old(self).wf(),
        ensures
            final(self).wf(),
            *final(self) == old(self).spec_polled(now),
            out == final(self).armed,
    {
        if let Some((set_at, value)) = self.pending {
            let due: i128 = set_at.nanos + self.delay.delta();
            if due <= now.nanos {
                self.armed = Some(value);
                self.pending = None;
            }
        }
        self.armed
    }

    pub fn reset(&mut self)
        ensures
            *final(self) == (CommandDelay { pending: None, armed: None, delay: old(self).delay }),
    {
        self.armed = None;
        self.pending = None;
    }

    /// The armed value, without looking at the clock.
    pub fn armed(&self) -> (out: Option<Scalar>)
        ensures
            out == self.armed,
    {
        self.armed
    }
}

/// A command is not armed before its delay is over and is armed from then on,
/// unless another one replaces it.
pub proof fn command_arms_when_due(delay: CommandDelay, set_at: Moment, now: Moment, value: Scalar)
    ensures
        ({
            let after = delay.spec_commanded(set_at, value).spec_polled(now);
            if delay.delay.nanos == 0 || set_at.nanos + delay.delay.spec_delta() <= now.nanos {
                after.armed == Some(value)
            } else {
                after.armed == delay.armed
            }
        }),
{
}

/// Tracks a target at a limited rate; a rate that is not finite follows at
/// once.
#[derive(Debug)]
pub struct Ramp {
    pub actual: Scalar,
    pub target: Scalar,
    pub rate: Scalar,
}

/// `size` in the direction of `diff`.
pub open spec fn toward(diff: Scalar, size: Scalar) -> Scalar {
    if diff.spec_is_nan() {
        diff
    } else if diff.bits >= SIGN {
        size.spec_negated()
    } else {
        size
    }
}

/// `after` is `before` moved toward its target for `dt`. `travel` is how far
/// the rate goes in that time; `minus` and `plus` are the arithmetic.
pub open spec fn advances<
    T: Fn(Scalar, Span) -> Scalar,
    M: Fn(Scalar, Scalar) -> Scalar,
    P: Fn(Scalar, Scalar) -> Scalar,
>(before: Ramp, after: Ramp, dt: Span, travel: T, minus: M, plus: P) -> bool {
    &&& after.target == before.target
    &&& after.rate == before.rate
    &&& if !before.rate.spec_is_finite() {
        after.actual == before.target
    } else {
        exists|most: Scalar, diff: Scalar|
            #![trigger call_ensures(travel, (before.rate, dt), most), call_ensures(minus, (before.target, before.actual), diff)]
            call_ensures(travel, (before.rate, dt), most) && call_ensures(
                minus,
                (before.target, before.actual),
                diff,
            ) && if diff.spec_absolute().spec_at_most(most) {
                after.actual == before.target
            } else {
                call_ensures(plus, (before.actual, toward(diff, most)), after.actual)
            }
    }
}

/// A ramp that has arrived stays where it is, where a value minus itself is
/// zero and time does not run backward.
pub proof fn arrived_ramp_stays<
    T: Fn(Scalar, Span) -> Scalar,
    M: Fn(Scalar, Scalar) -> Scalar,
    P: Fn(Scalar, Scalar) -> Scalar,
>(before: Ramp, after: Ramp, dt: Span, travel: T, minus: M, plus: P)
    requires
        before.actual == before.target,
        forall|d: Scalar|
            call_ensures(minus, (before.target, before.target), d) ==> d.spec_rank() == 0,
        forall|m: Scalar| call_ensures(travel, (before.rate, dt), m) ==> zero().spec_at_most(m),
        advances(before, after, dt, travel, minus, plus),
    ensures
        after == before,
{
    if before.rate.spec_is_finite() {
        let (most, diff) = choose|most: Scalar, diff: Scalar|
            #![trigger call_ensures(travel, (before.rate, dt), most), call_ensures(minus, (before.target, before.actual), diff)]
            call_ensures(travel, (before.rate, dt), most) && call_ensures(
                minus,
                (before.target, before.actual),
                diff,
            ) && if diff.spec_absolute().spec_at_most(most) {
                after.actual == before.target
            } else {
                call_ensures(plus, (before.actual, toward(diff, most)), after.actual)
            };
        assert(call_ensures(travel, (before.rate, dt), most));
        assert(call_ensures(minus, (before.target, before.target), diff));
        assert(diff.spec_rank() == 0);
        assert(diff.spec_absolute() == zero());
    }
}

/// Arithmetic that keeps order, as rounded arithmetic does: a difference has
/// the sign of the order of its operands, a step short of the difference does
/// not pass the other operand, and a larger step leads no less far.
pub open spec fn keeps_order<
    M: Fn(Scalar, Scalar) -> Scalar,
    P: Fn(Scalar, Scalar) -> Scalar,
>(minus: M, plus: P, from: Scalar, to: Scalar) -> bool {
    &&& forall|d: Scalar| #[trigger]
        call_ensures(minus, (to, from), d) ==> !d.spec_is_nan() && (from.spec_below(to)
            ==> zero().spec_below(d)) && (to.spec_below(from) ==> d.spec_below(zero())) && (
        from.spec_rank() == to.spec_rank() ==> d.spec_rank() == 0)
    &&& forall|d: Scalar, x: Scalar, r: Scalar|
        #![trigger call_ensures(minus, (to, from), d), call_ensures(plus, (from, x), r)]
        call_ensures(minus, (to, from), d) && call_ensures(plus, (from, x), r) ==> (x.spec_below(d)
            ==> r.spec_at_most(to)) && (d.spec_below(x) ==> to.spec_at_most(r))
    &&& forall|x: Scalar, r: Scalar| #[trigger]
        call_ensures(plus, (from, x), r) ==> (zero().spec_at_most(x) ==> from.spec_at_most(r)) && (
        x.spec_at_most(zero()) ==> r.spec_at_most(from))
    &&& forall|x: Scalar, y: Scalar, r: Scalar, s: Scalar|
        #![trigger call_ensures(plus, (from, x), r), call_ensures(plus, (from, y), s)]
        call_ensures(plus, (from, x), r) && call_ensures(plus, (from, y), s) && x.spec_at_most(y)
            ==> r.spec_at_most(s)
}

/// `b` lies between `a` and `c`.
pub open spec fn between(a: Scalar, b: Scalar, c: Scalar) -> bool {
    (a.spec_at_most(b) && b.spec_at_most(c)) || (c.spec_at_most(b) && b.spec_at_most(a))
}

/// A ramp never overshoots: it ends between where it was and its target, at
/// the target where the rate is not finite, and no step within what the rate
/// allows ends between its new place and the target.
pub proof fn ramp_never_overshoots<
    T: Fn(Scalar, Span) -> Scalar,
    M: Fn(Scalar, Scalar) -> Scalar,
    P: Fn(Scalar, Scalar) -> Scalar,
>(before: Ramp, after: Ramp, dt: Span, travel: T, minus: M, plus: P)
    requires
        !before.actual.spec_is_nan(),
        !before.target.spec_is_nan(),
        keeps_order(minus, plus, before.actual, before.target),
        forall|m: Scalar| #[trigger]
            call_ensures(travel, (before.rate, dt), m) ==> zero().spec_at_most(m),
        advances(before, after, dt, travel, minus, plus),
    ensures
        between(before.actual, after.actual, before.target),
        after.target == before.target,
        !before.rate.spec_is_finite() ==> after.actual == before.target,
        after.actual == before.target || exists|most: Scalar| #[trigger]
            call_ensures(travel, (before.rate, dt), most) && forall|x: Scalar, r: Scalar|
                x.spec_absolute().spec_at_most(most) && #[trigger] call_ensures(
                    plus,
                    (before.actual, x),
                    r,
                ) ==> if before.actual.spec_below(before.target) {
                    r.spec_at_most(after.actual)
                } else {
                    after.actual.spec_at_most(r)
                },
{
    if before.rate.spec_is_finite() {
        let (most, diff) = choose|most: Scalar, diff: Scalar|
            #![trigger call_ensures(travel, (before.rate, dt), most), call_ensures(minus, (before.target, before.actual), diff)]
            call_ensures(travel, (before.rate, dt), most) && call_ensures(
                minus,
                (before.target, before.actual),
                diff,
            ) && if diff.spec_absolute().spec_at_most(most) {
                after.actual == before.target
            } else {
                call_ensures(plus, (before.actual, toward(diff, most)), after.actual)
            };
        assert(call_ensures(travel, (before.rate, dt), most));
        assert(call_ensures(minus, (before.target, before.actual), diff));
        if !diff.spec_absolute().spec_at_most(most) {
            let step = toward(diff, most);
            assert(call_ensures(plus, (before.actual, step), after.actual));
            assert(diff.spec_rank() != 0);
            assert forall|x: Scalar, r: Scalar|
                x.spec_absolute().spec_at_most(most) && #[trigger] call_ensures(
                    plus,
                    (before.actual, x),
                    r,
                ) implies if before.actual.spec_below(before.target) {
                r.spec_at_most(after.actual)
            } else {
                after.actual.spec_at_most(r)
            } by {
                if before.actual.spec_below(before.target) {
                    assert(x.spec_at_most(step));
                } else {
                    assert(step.spec_at_most(x));
                }
            }
        }
    }
}

impl Ramp {
    pub fn new(rate: Scalar, initial: Scalar) -> (out: Self)
        ensures
            out == (Ramp { actual: initial, target: initial, rate }),
    {
        Ramp { actual: initial, target: initial, rate }
    }

    pub fn rate(&self) -> (out: Scalar)
        ensures
            out == self.rate,
    {
        self.rate
    }

    pub fn set_target(&mut self, target: Scalar)
        ensures
            *final(self) == (Ramp { target, ..*old(self) }),
    {
        self.target = target;
    }

    /// Jumps to a value and stays there.
    pub fn snap_to(&mut self, value: Scalar)
        ensures
            *final(self) == (Ramp { actual: value, target: value, rate: old(self).rate }),
    {
        self.target = value;
        self.actual = value;
    }

    pub fn actual(&self) -> (out: Scalar)
        ensures
            out == self.actual,
    {
        self.actual
    }

    pub fn target(&self) -> (out: Scalar)
        ensures
            out == self.target,
    {
        self.target
    }

    /// Moves toward the target by what `dt` allows, and returns where that
    /// is.
    pub fn advance<
        T: Fn(Scalar, Span) -> Scalar,
        M: Fn(Scalar, Scalar) -> Scalar,
        P: Fn(Scalar, Scalar) -> Scalar,
    >(&mut self, dt: Span, travel: &T, minus: &M, plus: &P) -> (out: Scalar)
        requires
            forall|r: Scalar, d: Span| call_requires(*travel, (r, d)),
            forall|a: Scalar, b: Scalar| call_requires(*minus, (a, b)),
            forall|a: Scalar, b: Scalar| call_requires(*plus, (a, b)),
        ensures
            advances(*old(self), *final(self), dt, *travel, *minus, *plus),
            out == final(self).actual,
    {
        if !self.rate.is_finite() {
            self.actual = self.target;
            return self.actual;
        }
        let most = travel(self.rate, dt);
        let diff = minus(self.target, self.actual);
        if diff.absolute().at_most(most) {
            self.actual = self.target;
        } else {
            let step = if diff.is_nan() {
                diff
            } else if diff.bits >= SIGN {
                most.negate()
            } else {
                most
            };
            self.actual = plus(self.actual, step);
        }
        assert(call_ensures(*travel, (old(self).rate, dt), most) && call_ensures(
            *minus,
            (old(self).target, old(self).actual),
            diff,
        ));
        self.actual
    }
}

/// The latest command wins: giving another one leaves nothing of the one that
/// was pending, and until it is due the armed one rules on.
pub proof fn latest_command_wins(
    delay: CommandDelay,
    first: (Moment, Scalar),
    second: (Moment, Scalar),
    now: Moment,
)
    ensures
        ({
            let twice = delay.spec_commanded(first.0, first.1).spec_commanded(
                second.0,
                second.1,
            );
            &&& delay.delay.nanos == 0 ==> twice.armed == Some(second.1) && twice.pending is None
            &&& delay.delay.nanos > 0 ==> twice.pending == Some(second) && twice.armed
                == delay.armed
            &&& twice.delay == delay.delay
            &&& delay.delay.nanos > 0 && second.0.nanos + delay.delay.spec_delta() > now.nanos
                ==> twice.spec_polled(now).armed == delay.armed
        }),
{
}

/// Looking at the clock arms a command once: looking again changes nothing, and
/// without a command nothing is armed.
pub proof fn polling_again_changes_nothing(delay: CommandDelay, now: Moment)
    ensures
        delay.spec_polled(now).spec_polled(now) == delay.spec_polled(now),
        delay.pending is None ==> delay.spec_polled(now) == delay,
        delay.spec_polled(now).armed != delay.armed ==> delay.pending is Some
            && delay.spec_polled(now).armed == Some((delay.pending->0).1)
            && delay.spec_polled(now).pending is None,
{
}

/// With exact arithmetic a ramp at a finite rate moves toward its target by
/// what the rate gives in the time, or arrives where that is enough.
pub proof fn ramp_moves_by_its_rate<
    T: Fn(Scalar, Span) -> Scalar,
    M: Fn(Scalar, Scalar) -> Scalar,
    P: Fn(Scalar, Scalar) -> Scalar,
>(
    before: Ramp,
    after: Ramp,
    dt: Span,
    travel: T,
    minus: M,
    plus: P,
    value: spec_fn(Scalar) -> int,
    reach: int,
)
    requires
        before.rate.spec_is_finite(),
        reach >= 0,
        value(zero()) == 0,
        forall|a: Scalar, b: Scalar|
            #![trigger value(a), value(b)]
            !a.spec_is_nan() && !b.spec_is_nan() ==> (a.spec_at_most(b) == (value(a)
                <= value(b))),
        forall|a: Scalar| !a.spec_is_nan() ==> #[trigger] value(a.spec_negated()) == -value(a),
        forall|m: Scalar| #[trigger]
            call_ensures(travel, (before.rate, dt), m) ==> !m.spec_is_nan() && value(m) == reach,
        forall|a: Scalar, b: Scalar, r: Scalar| #[trigger]
            call_ensures(minus, (a, b), r) ==> !r.spec_is_nan() && value(r) == value(a) - value(b),
        forall|a: Scalar, b: Scalar, r: Scalar| #[trigger]
            call_ensures(plus, (a, b), r) ==> !r.spec_is_nan() && value(r) == value(a) + value(b),
        advances(before, after, dt, travel, minus, plus),
    ensures
        ({
            let (from, to) = (value(before.actual), value(before.target));
            if to - from > reach {
                value(after.actual) == from + reach
            } else if from - to > reach {
                value(after.actual) == from - reach
            } else {
                after.actual == before.target
            }
        }),
{
    let (most, diff) = choose|most: Scalar, diff: Scalar|
        #![trigger call_ensures(travel, (before.rate, dt), most), call_ensures(minus, (before.target, before.actual), diff)]
        call_ensures(travel, (before.rate, dt), most) && call_ensures(
            minus,
            (before.target, before.actual),
            diff,
        ) && if diff.spec_absolute().spec_at_most(most) {
            after.actual == before.target
        } else {
            call_ensures(plus, (before.actual, toward(diff, most)), after.actual)
        };
    assert(call_ensures(travel, (before.rate, dt), most));
    assert(call_ensures(minus, (before.target, before.actual), diff));
    let size = diff.spec_absolute();
    assert(size == diff || size == diff.spec_negated());
    assert(value(diff.spec_negated()) == -value(diff));
    assert(zero().spec_at_most(diff) == (value(zero()) <= value(diff)));
    assert(diff.spec_at_most(zero()) == (value(diff) <= value(zero())));
    assert(size.spec_at_most(most) == (value(size) <= value(most)));
    assert(value(most.spec_negated()) == -value(most));
}

} // verus!
