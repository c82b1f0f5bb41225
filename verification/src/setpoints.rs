//! Per-component log of incoming setpoint requests and their outcome.

use crate::history::ring_push;
use crate::scalar::Scalar;
use crate::time::Moment;
use std::collections::VecDeque;
use vstd::prelude::*;

verus! {

#[derive(Clone, Copy, Debug, PartialEq, Eq, Structural)]
pub enum SetpointKind {
    ActivePower,
    ReactivePower,
    AugmentBounds,
}

impl SetpointKind {
    pub open spec fn spec_name(self) -> Seq<char> {
        match self {
            SetpointKind::ActivePower => "active_power"@,
            SetpointKind::ReactivePower => "reactive_power"@,
            SetpointKind::AugmentBounds => "augment_bounds"@,
        }
    }

    pub fn as_str(self) -> (out: &'static str)
        ensures
            out@ == self.spec_name(),
    {
        match self {
            SetpointKind::ActivePower => "active_power",
            SetpointKind::ReactivePower => "reactive_power",
            SetpointKind::AugmentBounds => "augment_bounds",
        }
    }
}

/// The name of a setpoint kind on the event stream.
pub fn setpoint_kind_label(kind: SetpointKind) -> (out: &'static str)
    ensures
        out@ == kind.spec_name(),
{
    kind.as_str()
}

#[derive(Debug)]
pub enum SetpointOutcome {
    /// Applied; the value the component now tracks, where there is one.
    Accepted { effective_value: Option<Scalar> },
    /// Refused before reaching the component.
    Rejected { reason: String },
}

impl Clone for SetpointOutcome {
    fn clone(&self) -> (out: Self)
        ensures
            out == *self,
    {
        match self {
            SetpointOutcome::Accepted { effective_value } => SetpointOutcome::Accepted {
                effective_value: *effective_value,
            },
            SetpointOutcome::Rejected { reason } => SetpointOutcome::Rejected {
                reason: reason.clone(),
            },
        }
    }
}

impl SetpointOutcome {
    /// Whether the request was applied, and why not where it was not.
    pub fn verdict(&self) -> (out: (bool, Option<String>))
        ensures
            match *self {
                SetpointOutcome::Accepted { .. } => out == (true, None::<String>),
                SetpointOutcome::Rejected { reason } => out == (false, Some(reason)),
            },
    {
        match self {
            SetpointOutcome::Accepted { .. } => (true, None),
            SetpointOutcome::Rejected { reason } => (false, Some(reason.clone())),
        }
    }

    pub open spec fn spec_tag(self) -> Seq<char> {
        match self {
            SetpointOutcome::Accepted { .. } => "accepted"@,
            SetpointOutcome::Rejected { .. } => "rejected"@,
        }
    }

    /// The tag under which the outcome is serialised.
    pub fn tag(&self) -> (out: &'static str)
        ensures
            out@ == self.spec_tag(),
    {
        match self {
            SetpointOutcome::Accepted { .. } => "accepted",
            SetpointOutcome::Rejected { .. } => "rejected",
        }
    }
}

#[derive(Debug)]
pub struct SetpointEvent {
    /// When the request arrived.
    pub ts: Moment,
    pub kind: SetpointKind,
    /// Requested value; unused for bounds augmentations.
    pub value: Scalar,
    /// Resolved request lifetime in seconds.
    pub ttl_s: Option<u64>,
    pub outcome: SetpointOutcome,
}

impl Clone for SetpointEvent {
    fn clone(&self) -> (out: Self)
        ensures
            out == *self,
    {
        SetpointEvent {
            ts: self.ts,
            kind: self.kind,
            value: self.value,
            ttl_s: self.ttl_s,
            outcome: self.outcome.clone(),
        }
    }
}

/// A bounded ring of recent setpoint events of one component.
#[derive(Debug)]
pub struct SetpointLog {
    pub capacity: usize,
    pub ring: VecDeque<SetpointEvent>,
}

/// Events ascend in time.
pub open spec fn events_ordered(ring: Seq<SetpointEvent>) -> bool {
    forall|i: int, j: int| 0 <= i <= j < ring.len() ==> ring[i].ts.nanos <= ring[j].ts.nanos
}

/// `cut` separates what is older than `since` from the rest.
pub open spec fn is_event_cut(ring: Seq<SetpointEvent>, since: Moment, cut: int) -> bool {
    &&& 0 <= cut <= ring.len()
    &&& forall|i: int| 0 <= i < cut ==> (#[trigger] ring[i]).ts.nanos < since.nanos
    &&& forall|i: int| cut <= i < ring.len() ==> (#[trigger] ring[i]).ts.nanos >= since.nanos
}

/// `window` is the part of `ring` from `since` on: always a suffix, and
/// exactly the events at or after `since` where the ring ascends in time.
pub open spec fn is_event_window(
    ring: Seq<SetpointEvent>,
    since: Moment,
    window: Seq<SetpointEvent>,
) -> bool {
    exists|cut: int|
        0 <= cut <= ring.len() && window == #[trigger] ring.skip(cut) && (events_ordered(ring)
            ==> is_event_cut(ring, since, cut))
}

impl View for SetpointLog {
    type V = Seq<SetpointEvent>;

    open spec fn view(&self) -> Seq<SetpointEvent> {
        self.ring@
    }
}

impl SetpointLog {
    pub fn new(capacity: usize) -> (out: Self)
        ensures
            out.capacity == capacity,
            out@ == Seq::<SetpointEvent>::empty(),
    {
        SetpointLog { capacity, ring: VecDeque::new() }
    }

    pub fn push(&mut self, event: SetpointEvent)
        ensures
            final(self).capacity == old(self).capacity,
            final(self)@ == ring_push(old(self)@, old(self).capacity as nat, event),
    {
        if self.capacity == 0 {
            return;
        }
        let ghost before = self.ring@;
        if self.ring.len() == self.capacity {
            let _ = self.ring.pop_front();
            assert(self.ring@ =~= before.drop_first());
        }
        self.ring.push_back(event);
    }

    pub fn len(&self) -> (out: usize)
        ensures
            out == self@.len(),
    {
        self.ring.len()
    }

    pub fn is_empty(&self) -> (out: bool)
        ensures
            out == (self@.len() == 0),
    {
        self.ring.len() == 0
    }

    /// The events at or after `since`, oldest first.
    pub fn iter_window(&self, since: Moment) -> (out: Vec<SetpointEvent>)
        ensures
            is_event_window(self@, since, out@),
    {
        let mut lo: usize = 0;
        let mut hi: usize = self.ring.len();
        while lo < hi
            invariant
                0 <= lo <= hi <= self@.len(),
                events_ordered(self@) ==> forall|i: int|
                    0 <= i < lo ==> (#[trigger] self@[i]).ts.nanos < since.nanos,
                events_ordered(self@) ==> forall|i: int|
                    hi <= i < self@.len() ==> (#[trigger] self@[i]).ts.nanos >= since.nanos,
            decreases hi - lo,
        {
            let mid: usize = lo + (hi - lo) / 2;
            if self.ring[mid].ts.nanos < since.nanos {
                assert(self@[mid as int].ts.nanos < since.nanos);
                lo = mid + 1;
            } else {
                assert(self@[mid as int].ts.nanos >= since.nanos);
                hi = mid;
            }
        }
        let out = self.tail_from(lo);
        assert(events_ordered(self@) ==> is_event_cut(self@, since, lo as int));
        assert(out@ == self@.skip(lo as int));
        out
    }

    /// Every event, oldest first.
    pub fn iter(&self) -> (out: Vec<SetpointEvent>)
        ensures
            out@ == self@,
    {
        let out = self.tail_from(0);
        assert(self@.skip(0) =~= self@);
        out
    }

    fn tail_from(&self, from: usize) -> (out: Vec<SetpointEvent>)
        requires
            from <= self@.len(),
        ensures
            out@ == self@.skip(from as int),
    {
        let mut out: Vec<SetpointEvent> = Vec::new();
        let mut i: usize = from;
        while i < self.ring.len()
            invariant
                from <= i <= self@.len(),
                out@ == self@.subrange(from as int, i as int),
            decreases self@.len() - i,
        {
            out.push(self.ring[i].clone());
            i = i + 1;
            assert(out@ =~= self@.subrange(from as int, i as int));
        }
        assert(out@ =~= self@.skip(from as int));
        out
    }
}

/// A window of a time-ordered log is its end from `since` on, `since` itself
/// counted in: nothing in it is older, and nothing left out is as young.
pub proof fn window_holds_the_recent_events(
    ring: Seq<SetpointEvent>,
    since: Moment,
    window: Seq<SetpointEvent>,
)
    requires
        events_ordered(ring),
        is_event_window(ring, since, window),
    ensures
        window.len() <= ring.len(),
        forall|i: int|
            0 <= i < window.len() ==> (#[trigger] window[i]).ts.nanos >= since.nanos && window[i]
                == ring[ring.len() - window.len() + i],
        forall|i: int|
            0 <= i < ring.len() - window.len() ==> (#[trigger] ring[i]).ts.nanos < since.nanos,
{
    let cut = choose|cut: int|
        0 <= cut <= ring.len() && window == #[trigger] ring.skip(cut) && is_event_cut(
            ring,
            since,
            cut,
        );
    assert(window.len() == ring.len() - cut);
}

/// No two kinds of setpoint share a name, and neither do the two outcomes.
pub proof fn setpoint_names_are_distinct(
    a: SetpointKind,
    b: SetpointKind,
    x: SetpointOutcome,
    y: SetpointOutcome,
)
    ensures
        a.spec_name() == b.spec_name() ==> a == b,
        x.spec_tag() == y.spec_tag() ==> (x is Accepted <==> y is Accepted),
{
    reveal_strlit("active_power");
    reveal_strlit("reactive_power");
    reveal_strlit("augment_bounds");
    reveal_strlit("accepted");
    reveal_strlit("rejected");
    assert("active_power"@.len() == 12);
    assert("reactive_power"@.len() == 14);
    assert("augment_bounds"@.len() == 14);
    assert("reactive_power"@[0] != "augment_bounds"@[0]);
    assert("accepted"@.len() == 8 && "rejected"@.len() == 8);
    assert("accepted"@[0] != "rejected"@[0]);
}

/// A request has a reason exactly where it was refused.
pub proof fn only_refusals_have_a_reason(outcome: &SetpointOutcome, out: (bool, Option<String>))
    requires
        call_ensures(SetpointOutcome::verdict, (outcome,), out),
    ensures
        out.0 <==> *outcome is Accepted,
        out.1 is Some <==> *outcome is Rejected,
        *outcome matches SetpointOutcome::Rejected { reason } ==> out.1 == Some(reason),
{
}

} // verus!
