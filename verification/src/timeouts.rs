//! Request lifetimes: when each component's last setpoint on each power axis
//! runs out.

use crate::keys::ascending_keys;
use crate::time::Span;
use std::collections::BTreeMap;
use vstd::prelude::*;

verus! {

broadcast use vstd::std_specs::btree::group_btree_axioms;

/// Which setpoint a request lifetime governs.
#[derive(Clone, Copy, Debug, PartialEq, Eq, Structural)]
pub enum SetpointAxis {
    Active,
    Reactive,
}

/// The deadline of each component and axis that has one, in nanoseconds of a
/// monotonic clock.
#[derive(Debug)]
pub struct TimeoutTracker {
    pub active: BTreeMap<u64, u128>,
    pub reactive: BTreeMap<u64, u128>,
}

/// The deadlines that are still ahead at `now`.
pub open spec fn ahead(deadlines: Map<u64, u128>, now: u128) -> Map<u64, u128> {
    deadlines.restrict(deadlines.dom().filter(|id: u64| deadlines[id] > now))
}

/// `id` has a deadline that has passed at `now`.
pub open spec fn has_passed(deadlines: Map<u64, u128>, now: u128, id: u64) -> bool {
    deadlines.contains_key(id) && deadlines[id] <= now
}

fn sweep(
    deadlines: &mut BTreeMap<u64, u128>,
    now: u128,
    axis: SetpointAxis,
    expired: &mut Vec<(u64, SetpointAxis)>,
)
    requires
        forall|i: int| 0 <= i < old(expired).len() ==> (#[trigger] old(expired)[i]).1 != axis,
        old(expired)@.no_duplicates(),
    ensures
        final(deadlines)@ == ahead(old(deadlines)@, now),
        final(expired)@.no_duplicates(),
        forall|id: u64, a: SetpointAxis| #[trigger]
            final(expired)@.contains((id, a)) == (old(expired)@.contains((id, a)) || (a == axis
                && has_passed(old(deadlines)@, now, id))),
{
    let ids = ascending_keys(deadlines);
    let ghost all = deadlines@;
    let ghost start = expired@;
    let mut i: usize = 0;
    while i < ids.len()
        invariant
            i <= ids.len(),
            crate::keys::lists_keys(all.dom(), ids@),
            expired@.no_duplicates(),
            forall|id: u64| #[trigger]
                deadlines@.contains_key(id) == (all.contains_key(id) && !(all[id] <= now && exists|
                    k: int,
                |
                    0 <= k < i && ids@[k] == id)),
            forall|id: u64| #[trigger] deadlines@.contains_key(id) ==> deadlines@[id] == all[id],
            forall|id: u64, a: SetpointAxis| #[trigger]
                expired@.contains((id, a)) == (start.contains((id, a)) || (a == axis && all[id]
                    <= now && exists|k: int| 0 <= k < i && ids@[k] == id)),
            forall|k: int| 0 <= k < start.len() ==> (#[trigger] start[k]).1 != axis,
        decreases ids.len() - i,
    {
        let id = ids[i];
        assert(ids@.contains(id));
        let ghost before = expired@;
        if let Some(at) = deadlines.get(&id) {
            if *at <= now {
                assert(!before.contains((id, axis))) by {
                    if start.contains((id, axis)) {
                        let k = choose|k: int| 0 <= k < start.len() && start[k] == (id, axis);
                        assert(start[k].1 == axis);
                    }
                }
                deadlines.remove(&id);
                expired.push((id, axis));
                assert forall|x: u64, a: SetpointAxis| #[trigger] expired@.contains((x, a)) == (
                before.contains((x, a)) || (x == id && a == axis)) by {
                    if before.contains((x, a)) {
                        let k = choose|k: int| 0 <= k < before.len() && before[k] == (x, a);
                        assert(expired@[k] == (x, a));
                    }
                    if x == id && a == axis {
                        assert(expired@[before.len() as int] == (x, a));
                    }
                }
            }
        } else {
            assert(!deadlines@.contains_key(id));
        }
        i = i + 1;
    }
    proof {
        assert forall|id: u64| all.contains_key(id) implies exists|k: int|
            0 <= k < ids.len() && ids@[k] == id by {
            assert(ids@.contains(id));
        }
        assert(deadlines@ =~= ahead(all, now));
        assert forall|id: u64, a: SetpointAxis| #[trigger] expired@.contains((id, a)) == (
        start.contains((id, a)) || (a == axis && has_passed(all, now, id))) by {
            if (exists|k: int| 0 <= k < ids.len() && ids@[k] == id) {
                assert(ids@.contains(id));
            }
        }
    }
}

impl TimeoutTracker {
    /// The deadlines of one axis.
    pub open spec fn deadlines(self, axis: SetpointAxis) -> Map<u64, u128> {
        match axis {
            SetpointAxis::Active => self.active@,
            SetpointAxis::Reactive => self.reactive@,
        }
    }

    pub fn new() -> (out: Self)
        ensures
            forall|axis: SetpointAxis| #[trigger]
                out.deadlines(axis) == Map::<u64, u128>::empty(),
    {
        TimeoutTracker { active: BTreeMap::new(), reactive: BTreeMap::new() }
    }

    /// Arms the deadline `now + lifetime` for one axis of a component,
    /// replacing the one that it had there. The other axis keeps its own.
    pub fn add(&mut self, id: u64, axis: SetpointAxis, now: u128, lifetime: Span)
        requires
            now + lifetime.nanos <= u128::MAX,
        ensures
            forall|a: SetpointAxis| #[trigger]
                final(self).deadlines(a) == (if a == axis {
                    old(self).deadlines(a).insert(id, (now + lifetime.nanos) as u128)
                } else {
                    old(self).deadlines(a)
                }),
    {
        let at: u128 = now + lifetime.nanos;
        match axis {
            SetpointAxis::Active => {
                self.active.insert(id, at);
            },
            SetpointAxis::Reactive => {
                self.reactive.insert(id, at);
            },
        }
    }

    /// Takes out every deadline that has passed and returns whose they were,
    /// each once.
    pub fn remove_expired(&mut self, now: u128) -> (out: Vec<(u64, SetpointAxis)>)
        ensures
            out@.no_duplicates(),
            forall|id: u64, a: SetpointAxis| #[trigger]
                out@.contains((id, a)) == has_passed(old(self).deadlines(a), now, id),
            forall|a: SetpointAxis| #[trigger]
                final(self).deadlines(a) == ahead(old(self).deadlines(a), now),
    {
        let mut out: Vec<(u64, SetpointAxis)> = Vec::new();
        sweep(&mut self.active, now, SetpointAxis::Active, &mut out);
        proof {
            assert forall|i: int| 0 <= i < out.len() implies (#[trigger] out[i]).1
                != SetpointAxis::Reactive by {
                let p = out@[i];
                assert(out@.contains((p.0, p.1)));
            }
        }
        sweep(&mut self.reactive, now, SetpointAxis::Reactive, &mut out);
        out
    }
}

/// A deadline is either handed out or kept by a sweep, and what was handed out
/// does not come up again.
pub proof fn deadlines_pass_once(deadlines: Map<u64, u128>, now: u128, later: u128, id: u64)
    requires
        now <= later,
        deadlines.contains_key(id),
    ensures
        has_passed(deadlines, now, id) != ahead(deadlines, now).contains_key(id),
        has_passed(deadlines, now, id) ==> !has_passed(ahead(deadlines, now), later, id),
        !has_passed(deadlines, now, id) ==> ahead(deadlines, now)[id] == deadlines[id],
{
}

/// A command on one axis leaves the other axis alone: whatever its lifetime,
/// the other axis expires when it would have.
pub proof fn axes_expire_apart(
    before: TimeoutTracker,
    after: TimeoutTracker,
    armed: SetpointAxis,
    other: SetpointAxis,
    id: u64,
    deadline: u128,
    now: u128,
    any: u64,
)
    requires
        armed != other,
        forall|a: SetpointAxis| #[trigger]
            after.deadlines(a) == (if a == armed {
                before.deadlines(a).insert(id, deadline)
            } else {
                before.deadlines(a)
            }),
    ensures
        has_passed(after.deadlines(armed), now, id) == (deadline <= now),
        has_passed(after.deadlines(other), now, any) == has_passed(
            before.deadlines(other),
            now,
            any,
        ),
{
}

} // verus!
