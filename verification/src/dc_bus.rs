//! An inverter and the batteries behind it: one tick pushes the commanded
//! power onto the DC bus and reads back what was taken.

use crate::battery::Battery;
use crate::fold::short_folds;
use crate::inverter::{actives, commands, measures, reactives, shares, BatteryInverter};
use crate::scalar::{zero, Scalar};
use crate::time::{Moment, Span};
use std::collections::BTreeMap;
use vstd::prelude::*;

verus! {

broadcast use vstd::std_specs::btree::group_btree_axioms;

/// What the devices behind an inverter take of a push, in order. A battery
/// takes what its limits leave; any other device only lets its flow be read;
/// an id without a device takes nothing.
pub open spec fn taken_from(
    batteries: Map<u64, Battery>,
    flows: Map<u64, (Scalar, Scalar)>,
    ids: Seq<u64>,
    p: Scalar,
    q: Scalar,
) -> Seq<(Scalar, Scalar)>
    decreases ids.len(),
{
    if ids.len() == 0 {
        Seq::empty()
    } else {
        let rest = taken_from(batteries, flows, ids.drop_last(), p, q);
        let id = ids.last();
        if batteries.contains_key(id) {
            let b = batteries[id].spec_pushed(p, q);
            rest.push((b.state.power_w, b.state.reactive_var))
        } else if flows.contains_key(id) {
            rest.push(flows[id])
        } else {
            rest
        }
    }
}

/// `after` is `before` with the push onto the batteries among `ids`.
pub open spec fn pushes(
    before: Map<u64, Battery>,
    after: Map<u64, Battery>,
    ids: Seq<u64>,
    p: Scalar,
    q: Scalar,
) -> bool {
    &&& after.dom() == before.dom()
    &&& forall|id: u64| #[trigger]
        before.contains_key(id) ==> after[id] == (if ids.contains(id) {
            before[id].spec_pushed(p, q)
        } else {
            before[id]
        })
}

/// The limits of every battery among `ids` are a range.
pub open spec fn limits_hold(batteries: Map<u64, Battery>, ids: Seq<u64>) -> bool {
    forall|id: u64| #[trigger]
        batteries.contains_key(id) && ids.contains(id) ==> batteries[id].spec_limits_hold()
}

proof fn push_grows(ids: Seq<u64>, i: int)
    requires
        0 <= i < ids.len(),
    ensures
        ids.take(i + 1).drop_last() == ids.take(i),
        ids.take(i + 1).last() == ids[i],
        forall|id: u64| #[trigger]
            ids.take(i + 1).contains(id) == (ids.take(i).contains(id) || id == ids[i]),
{
    assert(ids.take(i + 1).drop_last() =~= ids.take(i));
    assert forall|id: u64| #[trigger] ids.take(i + 1).contains(id) == (ids.take(i).contains(id)
        || id == ids[i]) by {
        if ids.take(i).contains(id) {
            let k = choose|k: int| 0 <= k < i && ids.take(i)[k] == id;
            assert(ids.take(i + 1)[k] == id);
        }
        assert(ids.take(i + 1)[i] == ids[i]);
        if ids.take(i + 1).contains(id) && id != ids[i] {
            let more = ids.take(i + 1);
            let k = choose|k: int| 0 <= k < more.len() && more[k] == id;
            assert(ids.take(i)[k] == id);
        }
    }
}

/// Pushes onto the devices `ids` and reads back what each takes.
fn push_all(
    batteries: &mut BTreeMap<u64, Battery>,
    flows: &BTreeMap<u64, (Scalar, Scalar)>,
    ids: &Vec<u64>,
    p: Scalar,
    q: Scalar,
) -> (out: Vec<(Scalar, Scalar)>)
    requires
        limits_hold(old(batteries)@, ids@),
    ensures
        pushes(old(batteries)@, final(batteries)@, ids@, p, q),
        out@ == taken_from(old(batteries)@, flows@, ids@, p, q),
{
    let ghost before = batteries@;
    let mut out: Vec<(Scalar, Scalar)> = Vec::new();
    let mut i: usize = 0;
    assert(ids@.take(0) =~= Seq::<u64>::empty());
    while i < ids.len()
        invariant
            i <= ids.len(),
            before == old(batteries)@,
            limits_hold(before, ids@),
            pushes(before, batteries@, ids@.take(i as int), p, q),
            out@ == taken_from(before, flows@, ids@.take(i as int), p, q),
        decreases ids.len() - i,
    {
        proof {
            push_grows(ids@, i as int);
        }
        let id: u64 = ids[i];
        assert(before.dom().contains(id) == batteries@.dom().contains(id));
        if let Some(mut b) = batteries.remove(&id) {
            assert(ids@[i as int] == id);
            assert(before.contains_key(id) && ids@.contains(id));
            b.set_dc_active_reactive(p, q);
            out.push((b.aggregate_power_w(), b.aggregate_reactive_var()));
            batteries.insert(id, b);
            assert(batteries@.dom() =~= before.dom());
        } else {
            assert(batteries@.dom() =~= before.dom());
            if let Some(flow) = flows.get(&id) {
                out.push(*flow);
            }
        }
        i = i + 1;
    }
    assert(ids@.take(ids@.len() as int) =~= ids@);
    out
}

impl BatteryInverter {
    /// One tick of an inverter and its batteries. The commanded power is
    /// shared out equally, `over` dividing by the number of successors; what
    /// the successors take adds up to what the inverter reports. `flows` holds
    /// the flow of each device that is no battery.
    pub fn tick<
        N: Fn(Scalar, Scalar, Scalar) -> bool,
        T: Fn(Scalar, Scalar) -> Scalar,
        H: Fn(Scalar, Scalar) -> Scalar,
        V: Fn(Scalar, Span) -> Scalar,
        M: Fn(Scalar, Scalar) -> Scalar,
        P: Fn(Scalar, Scalar) -> Scalar,
        D: Fn(Scalar, usize) -> Scalar,
    >(
        &mut self,
        batteries: &mut BTreeMap<u64, Battery>,
        flows: &BTreeMap<u64, (Scalar, Scalar)>,
        now: Moment,
        dt: Span,
        nearer: &N,
        times: &T,
        headroom: &H,
        travel: &V,
        minus: &M,
        plus: &P,
        over: &D,
    )
        requires
            old(self).wf(),
            limits_hold(old(batteries)@, old(self).successors@),
            forall|a: Scalar, b: Scalar, c: Scalar| call_requires(*nearer, (a, b, c)),
            forall|a: Scalar, b: Scalar| call_requires(*times, (a, b)),
            forall|a: Scalar, b: Scalar| call_requires(*headroom, (a, b)),
            forall|r: Scalar, d: Span| call_requires(*travel, (r, d)),
            forall|a: Scalar, b: Scalar| call_requires(*minus, (a, b)),
            forall|a: Scalar, b: Scalar| call_requires(*plus, (a, b)),
            forall|a: Scalar, n: usize| n > 0 ==> call_requires(*over, (a, n)),
        ensures
            final(self).wf(),
            exists|mid: BatteryInverter, commanded: (Scalar, Scalar), p: Scalar, q: Scalar|
                #![trigger commands(*old(self), mid, now, dt, *nearer, *times, *headroom, *travel, *minus, *plus, commanded), shares(mid, commanded.0, *over, p), shares(mid, commanded.1, *over, q)]
                {
                    &&& commands(
                        *old(self),
                        mid,
                        now,
                        dt,
                        *nearer,
                        *times,
                        *headroom,
                        *travel,
                        *minus,
                        *plus,
                        commanded,
                    )
                    &&& shares(mid, commanded.0, *over, p)
                    &&& shares(mid, commanded.1, *over, q)
                    &&& pushes(
                        old(batteries)@,
                        final(batteries)@,
                        old(self).successors@,
                        p,
                        q,
                    )
                    &&& measures(
                        mid,
                        *final(self),
                        commanded,
                        taken_from(old(batteries)@, flows@, old(self).successors@, p, q),
                        *plus,
                    )
                },
    {
        let commanded = self.tick_command(now, dt, nearer, times, headroom, travel, minus, plus);
        let ghost mid = *self;
        let p = self.share(commanded.0, over);
        let q = self.share(commanded.1, over);
        let taken = push_all(batteries, flows, &self.successors, p, q);
        self.tick_measure(commanded, &taken, plus);
        assert(shares(mid, commanded.0, *over, p));
        assert(shares(mid, commanded.1, *over, q));
    }
}

/// No battery takes more than its limits: whatever an inverter pushes, what
/// it then reads of a battery lies within that battery's limits.
pub proof fn battery_clips_a_push(b: Battery, p: Scalar, q: Scalar)
    requires
        b.state.effective_lower_w.spec_at_most(b.state.effective_upper_w),
        !p.spec_is_nan(),
    ensures
        b.state.effective_lower_w.spec_at_most(b.spec_pushed(p, q).state.power_w),
        b.spec_pushed(p, q).state.power_w.spec_at_most(b.state.effective_upper_w),
        b.spec_pushed(p, q).spec_pushed(p, q) == b.spec_pushed(p, q),
{
}

/// What a push leaves: each battery behind the inverter takes the push where
/// its limits allow it and the nearer limit where they do not, and no other
/// battery changes.
pub proof fn push_reaches_the_batteries_behind(
    before: Map<u64, Battery>,
    after: Map<u64, Battery>,
    ids: Seq<u64>,
    p: Scalar,
    q: Scalar,
    id: u64,
)
    requires
        limits_hold(before, ids),
        pushes(before, after, ids, p, q),
        before.contains_key(id),
    ensures
        after.contains_key(id),
        !ids.contains(id) ==> after[id] == before[id],
        ids.contains(id) ==> {
            let (b, a) = (before[id].state, after[id].state);
            &&& b.effective_lower_w.spec_at_most(p) && p.spec_at_most(b.effective_upper_w)
                ==> a.power_w == p
            &&& p.spec_below(b.effective_lower_w) ==> a.power_w == b.effective_lower_w
            &&& b.effective_upper_w.spec_below(p) ==> a.power_w == b.effective_upper_w
            &&& a.reactive_var == q
            &&& a.soc_pct == b.soc_pct && a.energy_wh == b.energy_wh
        },
{
    assert(after.dom().contains(id));
    assert(before[id].spec_limits_hold() || !ids.contains(id));
}

/// What is read back of the devices behind an inverter is, device by device and
/// in order, what each of them takes.
pub proof fn one_more_device_is_read_back(
    batteries: Map<u64, Battery>,
    flows: Map<u64, (Scalar, Scalar)>,
    ids: Seq<u64>,
    id: u64,
    p: Scalar,
    q: Scalar,
)
    ensures
        ({
            let rest = taken_from(batteries, flows, ids, p, q);
            let all = taken_from(batteries, flows, ids.push(id), p, q);
            if batteries.contains_key(id) {
                let limits = batteries[id].state;
                &&& all.len() == rest.len() + 1 && all.drop_last() == rest
                &&& all.last().1 == q
                &&& limits.effective_lower_w.spec_at_most(p) && p.spec_at_most(
                    limits.effective_upper_w,
                ) ==> all.last().0 == p
                &&& limits.effective_lower_w.spec_at_most(limits.effective_upper_w) && (p.spec_below(
                    limits.effective_lower_w,
                )) ==> all.last().0 == limits.effective_lower_w
                &&& limits.effective_lower_w.spec_at_most(limits.effective_upper_w)
                    && limits.effective_upper_w.spec_below(p) ==> all.last().0
                    == limits.effective_upper_w
            } else if flows.contains_key(id) {
                all == rest.push(flows[id])
            } else {
                all == rest
            }
        }),
        taken_from(batteries, flows, Seq::empty(), p, q) == Seq::<(Scalar, Scalar)>::empty(),
{
    assert(ids.push(id).drop_last() =~= ids);
    let rest = taken_from(batteries, flows, ids, p, q);
    let all = taken_from(batteries, flows, ids.push(id), p, q);
    if batteries.contains_key(id) {
        assert(all.drop_last() =~= rest);
    }
}

/// An inverter with one battery that can take its command reports the command:
/// where dividing by one and adding to zero change nothing, what the ramp
/// commands is what the battery does and what the inverter shows.
pub proof fn lone_battery_does_what_is_commanded<
    P: Fn(Scalar, Scalar) -> Scalar,
    D: Fn(Scalar, usize) -> Scalar,
>(
    mid: BatteryInverter,
    after: BatteryInverter,
    batteries: Map<u64, Battery>,
    pushed: Map<u64, Battery>,
    flows: Map<u64, (Scalar, Scalar)>,
    id: u64,
    commanded: (Scalar, Scalar),
    p: Scalar,
    q: Scalar,
    plus: P,
    over: D,
)
    requires
        mid.successors@ == seq![id],
        batteries.contains_key(id),
        batteries[id].state.effective_lower_w.spec_at_most(commanded.0),
        commanded.0.spec_at_most(batteries[id].state.effective_upper_w),
        forall|a: Scalar, r: Scalar| #[trigger] call_ensures(over, (a, 1usize), r) ==> r == a,
        forall|a: Scalar, r: Scalar| #[trigger] call_ensures(plus, (zero(), a), r) ==> r == a,
        shares(mid, commanded.0, over, p),
        shares(mid, commanded.1, over, q),
        pushes(batteries, pushed, mid.successors@, p, q),
        measures(
            mid,
            after,
            commanded,
            taken_from(batteries, flows, mid.successors@, p, q),
            plus,
        ),
    ensures
        pushed[id].state.power_w == commanded.0,
        pushed[id].state.reactive_var == commanded.1,
        after.measured_w == commanded.0,
        after.reactive.published == commanded.1,
{
    let none = Seq::<u64>::empty();
    assert(none.push(id) =~= mid.successors@);
    one_more_device_is_read_back(batteries, flows, none, id, p, q);
    let taken = taken_from(batteries, flows, mid.successors@, p, q);
    assert(mid.successors.len() == 1);
    assert(p == commanded.0 && q == commanded.1);
    assert(taken =~= seq![(p, q)]);
    assert(actives(taken) =~= seq![p]);
    assert(reactives(taken) =~= seq![q]);
    short_folds(plus, zero(), p, after.measured_w);
    short_folds(plus, zero(), q, after.reactive.published);
    assert(mid.successors@[0] == id);
    assert(mid.successors@.contains(id));
}

} // verus!
