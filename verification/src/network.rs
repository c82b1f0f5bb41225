//! Power flows through nested meters.

use crate::fold::sum_of;
use crate::inverter::{actives, reactives};
use crate::meter::{
    lone_child_is_read_as_it_is, reading_is_the_signed_sum, shared, sums_up, Meter,
};
use crate::registry::Registry;
use crate::scalar::{zero, Scalar};
use std::collections::BTreeMap;
use vstd::prelude::*;

verus! {

broadcast use vstd::std_specs::btree::group_btree_axioms;

/// The children that a meter reads, with the number of meters sharing each.
pub open spec fn read_by(meter: Meter, registry: Registry) -> Seq<(u64, usize)> {
    shared(
        meter.spec_child_ids(registry.connections@),
        registry.components@,
        registry.connections@,
    )
}

/// Meters nest no deeper than `depth` below `id`: no chain of meters, each
/// read by the one before, is longer.
pub open spec fn nests_within(
    meters: Map<u64, Meter>,
    registry: Registry,
    id: u64,
    depth: nat,
) -> bool
    decreases depth,
{
    if meters.contains_key(id) {
        depth > 0 && (meters[id].fixed_power_w is None ==> forall|i: int|
            0 <= i < read_by(meters[id], registry).len() ==> nests_within(
                meters,
                registry,
                (#[trigger] read_by(meters[id], registry)[i]).0,
                (depth - 1) as nat,
            ))
    } else {
        true
    }
}

/// `out` is the active and reactive power at `id`. A meter with a fixed power
/// reports that and no reactive power; another one adds up its children, a
/// shared child by its share. Any other device has the flow in `leaves`, or
/// none.
pub open spec fn is_flow<D: Fn(Scalar, usize) -> Scalar, P: Fn(Scalar, Scalar) -> Scalar>(
    meters: Map<u64, Meter>,
    leaves: Map<u64, (Scalar, Scalar)>,
    registry: Registry,
    over: D,
    plus: P,
    id: u64,
    depth: nat,
    out: (Scalar, Scalar),
) -> bool
    decreases depth,
{
    if meters.contains_key(id) {
        let meter = meters[id];
        let shares = read_by(meter, registry);
        depth > 0 && match meter.fixed_power_w {
            Some(p) => out == (p, zero()),
            None => exists|flows: Seq<(Scalar, Scalar)>|
                {
                    &&& flows.len() == shares.len()
                    &&& forall|i: int|
                        0 <= i < flows.len() ==> is_flow(
                            meters,
                            leaves,
                            registry,
                            over,
                            plus,
                            shares[i].0,
                            (depth - 1) as nat,
                            #[trigger] flows[i],
                        )
                    &&& #[trigger] sums_up(over, plus, actives(flows), shares, out.0)
                    &&& sums_up(over, plus, reactives(flows), shares, out.1)
                },
        }
    } else if leaves.contains_key(id) {
        out == leaves[id]
    } else {
        out == (zero(), zero())
    }
}

/// The power at `id`; nothing where meters nest deeper than `depth`.
pub fn flow_at<D: Fn(Scalar, usize) -> Scalar, P: Fn(Scalar, Scalar) -> Scalar>(
    meters: &BTreeMap<u64, Meter>,
    leaves: &BTreeMap<u64, (Scalar, Scalar)>,
    registry: &Registry,
    over: &D,
    plus: &P,
    id: u64,
    depth: usize,
) -> (out: Option<(Scalar, Scalar)>)
    requires
        forall|a: Scalar, n: usize| n > 0 ==> call_requires(*over, (a, n)),
        forall|a: Scalar, b: Scalar| call_requires(*plus, (a, b)),
    ensures
        out is Some == nests_within(meters@, *registry, id, depth as nat),
        out matches Some(flow) ==> is_flow(
            meters@,
            leaves@,
            *registry,
            *over,
            *plus,
            id,
            depth as nat,
            flow,
        ),
    decreases depth,
{
    let meter = match meters.get(&id) {
        Some(m) => m,
        None => {
            return match leaves.get(&id) {
                Some(flow) => Some(*flow),
                None => Some((zero(), zero())),
            };
        },
    };
    if depth == 0 {
        return None;
    }
    if let Some(p) = meter.fixed_power_w {
        return Some((p, zero()));
    }
    let shares = meter.shares(registry);
    let ghost expected = read_by(*meter, *registry);
    let mut flows: Vec<(Scalar, Scalar)> = Vec::new();
    let mut p_flows: Vec<Scalar> = Vec::new();
    let mut q_flows: Vec<Scalar> = Vec::new();
    let mut i: usize = 0;
    while i < shares.len()
        invariant
            i <= shares.len(),
            depth > 0,
            meters@.contains_key(id),
            meters@[id] == *meter,
            meter.fixed_power_w is None,
            expected == read_by(meters@[id], *registry),
            shares@ == expected,
            flows.len() == i,
            p_flows.len() == i,
            q_flows.len() == i,
            forall|a: Scalar, n: usize| n > 0 ==> call_requires(*over, (a, n)),
            forall|a: Scalar, b: Scalar| call_requires(*plus, (a, b)),
            forall|k: int|
                0 <= k < i ==> nests_within(
                    meters@,
                    *registry,
                    (#[trigger] expected[k]).0,
                    (depth - 1) as nat,
                ),
            forall|k: int|
                0 <= k < i ==> is_flow(
                    meters@,
                    leaves@,
                    *registry,
                    *over,
                    *plus,
                    expected[k].0,
                    (depth - 1) as nat,
                    #[trigger] flows@[k],
                ),
            forall|k: int|
                0 <= k < i ==> p_flows@[k] == (#[trigger] flows@[k]).0 && q_flows@[k]
                    == flows@[k].1,
        decreases shares.len() - i,
    {
        assert(shares@[i as int] == expected[i as int]);
        match flow_at(meters, leaves, registry, over, plus, shares[i].0, depth - 1) {
            Some(flow) => {
                flows.push(flow);
                p_flows.push(flow.0);
                q_flows.push(flow.1);
            },
            None => {
                assert(!nests_within(
                    meters@,
                    *registry,
                    expected[i as int].0,
                    (depth - 1) as nat,
                ));
                return None;
            },
        }
        i = i + 1;
    }
    let p = meter.aggregate_active(&p_flows, &shares, over, plus);
    let q = meter.aggregate_reactive(&q_flows, &shares, over, plus);
    assert(p_flows@ =~= actives(flows@));
    assert(q_flows@ =~= reactives(flows@));
    proof {
        let fs = flows@;
        let out = (p, q);
        assert(sums_up(*over, *plus, actives(fs), expected, out.0));
        assert(sums_up(*over, *plus, reactives(fs), expected, out.1));
        assert(fs.len() == expected.len());
        assert forall|i: int| 0 <= i < fs.len() implies is_flow(
            meters@,
            leaves@,
            *registry,
            *over,
            *plus,
            expected[i].0,
            (depth as nat - 1) as nat,
            #[trigger] fs[i],
        ) by {}
        assert(is_flow(meters@, leaves@, *registry, *over, *plus, id, depth as nat, out));
    }
    Some((p, q))
}

/// A bound on the nesting that holds keeps holding when it is raised.
pub proof fn deeper_bound_holds(
    meters: Map<u64, Meter>,
    registry: Registry,
    id: u64,
    depth: nat,
    more: nat,
)
    requires
        nests_within(meters, registry, id, depth),
        depth <= more,
    ensures
        nests_within(meters, registry, id, more),
    decreases depth,
{
    if meters.contains_key(id) && meters[id].fixed_power_w is None {
        let shares = read_by(meters[id], registry);
        assert forall|i: int| 0 <= i < shares.len() implies nests_within(
            meters,
            registry,
            (#[trigger] shares[i]).0,
            (more - 1) as nat,
        ) by {
            deeper_bound_holds(
                meters,
                registry,
                shares[i].0,
                (depth - 1) as nat,
                (more - 1) as nat,
            );
        }
    }
}

/// A device that is no meter is read by its own flow, an unknown one by none,
/// and a meter with a fixed power by that power without any reactive part.
pub proof fn leaves_are_read_as_they_are<
    D: Fn(Scalar, usize) -> Scalar,
    P: Fn(Scalar, Scalar) -> Scalar,
>(
    meters: Map<u64, Meter>,
    leaves: Map<u64, (Scalar, Scalar)>,
    registry: Registry,
    over: D,
    plus: P,
    id: u64,
    depth: nat,
    out: (Scalar, Scalar),
)
    requires
        is_flow(meters, leaves, registry, over, plus, id, depth, out),
    ensures
        !meters.contains_key(id) && leaves.contains_key(id) ==> out == leaves[id],
        !meters.contains_key(id) && !leaves.contains_key(id) ==> out == (zero(), zero()),
        meters.contains_key(id) && meters[id].fixed_power_w is Some ==> out == (
            meters[id].fixed_power_w->0,
            zero(),
        ),
{
}

/// A chain of meters hands a flow through unchanged: a meter that reads one
/// child, which no other meter shares, shows that child's active and reactive
/// power, feed-in included, where dividing by one and adding to zero change
/// nothing.
pub proof fn meter_hands_a_lone_flow_through<
    D: Fn(Scalar, usize) -> Scalar,
    P: Fn(Scalar, Scalar) -> Scalar,
>(
    meters: Map<u64, Meter>,
    leaves: Map<u64, (Scalar, Scalar)>,
    registry: Registry,
    over: D,
    plus: P,
    id: u64,
    child: u64,
    depth: nat,
    out: (Scalar, Scalar),
)
    requires
        meters.contains_key(id),
        meters[id].fixed_power_w is None,
        read_by(meters[id], registry) == seq![(child, 1usize)],
        forall|a: Scalar, r: Scalar| #[trigger] call_ensures(over, (a, 1usize), r) ==> r == a,
        forall|a: Scalar, r: Scalar| #[trigger] call_ensures(plus, (zero(), a), r) ==> r == a,
        is_flow(meters, leaves, registry, over, plus, id, depth, out),
    ensures
        depth > 0,
        is_flow(meters, leaves, registry, over, plus, child, (depth - 1) as nat, out),
{
    let shares = read_by(meters[id], registry);
    let flows = choose|flows: Seq<(Scalar, Scalar)>|
        {
            &&& flows.len() == shares.len()
            &&& forall|i: int|
                0 <= i < flows.len() ==> is_flow(
                    meters,
                    leaves,
                    registry,
                    over,
                    plus,
                    shares[i].0,
                    (depth - 1) as nat,
                    #[trigger] flows[i],
                )
            &&& #[trigger] sums_up(over, plus, actives(flows), shares, out.0)
            &&& sums_up(over, plus, reactives(flows), shares, out.1)
        };
    let flow = flows[0];
    assert(actives(flows) =~= seq![flow.0]);
    assert(reactives(flows) =~= seq![flow.1]);
    lone_child_is_read_as_it_is(over, plus, child, flow.0, out.0);
    lone_child_is_read_as_it_is(over, plus, child, flow.1, out.1);
    assert(shares[0].0 == child);
    assert(out == flow);
}

/// With exact arithmetic and without sharing, a meter shows the signed sum of
/// what its children show, for the active and the reactive power alike.
pub proof fn meter_shows_the_sum_of_its_children<
    D: Fn(Scalar, usize) -> Scalar,
    P: Fn(Scalar, Scalar) -> Scalar,
>(
    meters: Map<u64, Meter>,
    leaves: Map<u64, (Scalar, Scalar)>,
    registry: Registry,
    over: D,
    plus: P,
    id: u64,
    depth: nat,
    out: (Scalar, Scalar),
    value: spec_fn(Scalar) -> int,
) -> (flows: Seq<(Scalar, Scalar)>)
    requires
        meters.contains_key(id),
        meters[id].fixed_power_w is None,
        forall|i: int|
            0 <= i < read_by(meters[id], registry).len() ==> (#[trigger] read_by(
                meters[id],
                registry,
            )[i]).1 == 1,
        value(zero()) == 0,
        forall|a: Scalar, n: usize, r: Scalar| #[trigger]
            call_ensures(over, (a, n), r) ==> value(r) * n == value(a),
        forall|a: Scalar, b: Scalar, r: Scalar| #[trigger]
            call_ensures(plus, (a, b), r) ==> value(r) == value(a) + value(b),
        is_flow(meters, leaves, registry, over, plus, id, depth, out),
    ensures
        flows.len() == read_by(meters[id], registry).len(),
        forall|i: int|
            0 <= i < flows.len() ==> is_flow(
                meters,
                leaves,
                registry,
                over,
                plus,
                read_by(meters[id], registry)[i].0,
                (depth - 1) as nat,
                #[trigger] flows[i],
            ),
        value(out.0) == sum_of(flows.map_values(|f: (Scalar, Scalar)| f.0), value),
        value(out.1) == sum_of(flows.map_values(|f: (Scalar, Scalar)| f.1), value),
{
    let shares = read_by(meters[id], registry);
    let flows = choose|flows: Seq<(Scalar, Scalar)>|
        {
            &&& flows.len() == shares.len()
            &&& forall|i: int|
                0 <= i < flows.len() ==> is_flow(
                    meters,
                    leaves,
                    registry,
                    over,
                    plus,
                    shares[i].0,
                    (depth - 1) as nat,
                    #[trigger] flows[i],
                )
            &&& #[trigger] sums_up(over, plus, actives(flows), shares, out.0)
            &&& sums_up(over, plus, reactives(flows), shares, out.1)
        };
    assert forall|i: int| 0 <= i < shares.len() implies (#[trigger] shares[i]).1 > 0 && 1int % (
    shares[i].1 as int) == 0 by {
        assert(shares[i].1 == 1);
    }
    reading_is_the_signed_sum(over, plus, actives(flows), shares, out.0, value, 1);
    reading_is_the_signed_sum(over, plus, reactives(flows), shares, out.1, value, 1);
    assert(actives(flows) =~= flows.map_values(|f: (Scalar, Scalar)| f.0));
    assert(reactives(flows) =~= flows.map_values(|f: (Scalar, Scalar)| f.1));
    flows
}

} // verus!
