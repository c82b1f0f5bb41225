//! A power meter: it adds up its children, or reports a fixed power.

use crate::ac::{ac_telemetry, is_ac_only, reads_ac, Phases};
use crate::component::{numbered_name, Category, Telemetry};
use crate::fold::{
    folds, folds_keep_order, folds_push, last_item_is_one_call, short_folds, sum_of,
};
use crate::registry::{
    children, component_is_registered, component_of, parents, parents_are_edges, Component,
    Registry,
};
use crate::scalar::{zero, Scalar};
use crate::site::GridState;
use crate::text::decimal_text;
use crate::time::Span;
use crate::world::{join_with, joined_with, joining_repeats_nothing};
use vstd::prelude::*;

verus! {

#[derive(Debug)]
pub struct Meter {
    pub id: u64,
    pub name: String,
    pub interval: Span,
    /// Children known when the meter was made, hidden ones among them.
    pub successors: Vec<u64>,
    /// Reported in place of the children's sum.
    pub fixed_power_w: Option<Scalar>,
    pub stream_jitter_pct: Scalar,
    pub hidden: bool,
}

/// The registered ones among `ids`, each with the number of meters that share
/// it: the edges that end there, but at least one.
pub open spec fn shared(
    ids: Seq<u64>,
    components: Seq<Component>,
    connections: Seq<(u64, u64)>,
) -> Seq<(u64, usize)>
    decreases ids.len(),
{
    if ids.len() == 0 {
        Seq::empty()
    } else {
        let rest = shared(ids.drop_last(), components, connections);
        let id = ids.last();
        if component_of(components, id) is Some {
            let n = parents(connections, id);
            rest.push((id, (if n == 0 {
                1nat
            } else {
                n
            }) as usize))
        } else {
            rest
        }
    }
}

/// `parts` are the flows, each divided over those who share it.
pub open spec fn divided<D: Fn(Scalar, usize) -> Scalar>(
    over: D,
    flows: Seq<Scalar>,
    shares: Seq<(u64, usize)>,
    parts: Seq<Scalar>,
) -> bool {
    &&& parts.len() == flows.len()
    &&& forall|i: int|
        0 <= i < flows.len() ==> call_ensures(over, (flows[i], shares[i].1), #[trigger] parts[i])
}

/// `total` adds up the children's flows, a shared one by its share.
pub open spec fn sums_up<D: Fn(Scalar, usize) -> Scalar, P: Fn(Scalar, Scalar) -> Scalar>(
    over: D,
    plus: P,
    flows: Seq<Scalar>,
    shares: Seq<(u64, usize)>,
    total: Scalar,
) -> bool {
    exists|parts: Seq<Scalar>| #[trigger]
        divided(over, flows, shares, parts) && folds(plus, zero(), parts, total)
}

fn sum_up<D: Fn(Scalar, usize) -> Scalar, P: Fn(Scalar, Scalar) -> Scalar>(
    flows: &Vec<Scalar>,
    shares: &Vec<(u64, usize)>,
    over: &D,
    plus: &P,
) -> (out: Scalar)
    requires
        flows.len() == shares.len(),
        forall|i: int| 0 <= i < shares.len() ==> (#[trigger] shares[i]).1 > 0,
        forall|a: Scalar, n: usize| n > 0 ==> call_requires(*over, (a, n)),
        forall|a: Scalar, b: Scalar| call_requires(*plus, (a, b)),
    ensures
        sums_up(*over, *plus, flows@, shares@, out),
{
    let ghost mut parts: Seq<Scalar> = Seq::empty();
    let mut total: Scalar = zero();
    let mut i: usize = 0;
    while i < flows.len()
        invariant
            i <= flows.len(),
            flows.len() == shares.len(),
            forall|k: int| 0 <= k < shares.len() ==> (#[trigger] shares[k]).1 > 0,
            forall|a: Scalar, n: usize| n > 0 ==> call_requires(*over, (a, n)),
            forall|a: Scalar, b: Scalar| call_requires(*plus, (a, b)),
            parts.len() == i,
            forall|k: int|
                0 <= k < i ==> call_ensures(
                    *over,
                    (flows@[k], shares@[k].1),
                    #[trigger] parts[k],
                ),
            folds(*plus, zero(), parts, total),
        decreases flows.len() - i,
    {
        let n: usize = shares[i].1;
        let part = over(flows[i], n);
        let next = plus(total, part);
        proof {
            folds_push(*plus, zero(), parts, total, part, next);
            parts = parts.push(part);
        }
        total = next;
        i = i + 1;
    }
    assert(divided(*over, flows@, shares@, parts));
    total
}

impl Meter {
    pub fn new(
        id: u64,
        interval: Span,
        successors: Vec<u64>,
        fixed_power_w: Option<Scalar>,
        stream_jitter_pct: Scalar,
        hidden: bool,
    ) -> (out: Self)
        ensures
            out.id == id,
            out.name@ == "meter-"@ + decimal_text(id as nat),
            out.interval == interval,
            out.successors == successors,
            out.fixed_power_w == fixed_power_w,
            out.stream_jitter_pct == stream_jitter_pct,
            out.hidden == hidden,
    {
        let name = numbered_name("meter-", id);
        Meter { id, name, interval, successors, fixed_power_w, stream_jitter_pct, hidden }
    }

    /// The children to add up, each once: those known when the meter was made
    /// and, behind them, those connected since.
    pub open spec fn spec_child_ids(self, connections: Seq<(u64, u64)>) -> Seq<u64> {
        joined_with(
            joined_with(Seq::empty(), self.successors@),
            children(connections, self.id),
        )
    }

    pub fn child_ids(&self, registry: &Registry) -> (out: Vec<u64>)
        ensures
            out@ == self.spec_child_ids(registry.connections@),
            out@.no_duplicates(),
    {
        let known = join_with(Vec::new(), &self.successors);
        proof {
            joining_repeats_nothing(Seq::empty(), self.successors@);
            joining_repeats_nothing(known@, children(registry.connections@, self.id));
        }
        join_with(known, &registry.children_of(self.id))
    }

    /// The children to read, each with the number of meters that share it.
    pub fn shares(&self, registry: &Registry) -> (out: Vec<(u64, usize)>)
        ensures
            out@ == shared(
                self.spec_child_ids(registry.connections@),
                registry.components@,
                registry.connections@,
            ),
            forall|i: int| 0 <= i < out.len() ==> (#[trigger] out[i]).1 > 0,
    {
        let ids = self.child_ids(registry);
        let mut out: Vec<(u64, usize)> = Vec::new();
        let mut i: usize = 0;
        assert(ids@.take(0) =~= Seq::<u64>::empty());
        while i < ids.len()
            invariant
                i <= ids.len(),
                out@ == shared(
                    ids@.take(i as int),
                    registry.components@,
                    registry.connections@,
                ),
                forall|k: int| 0 <= k < out.len() ==> (#[trigger] out[k]).1 > 0,
            decreases ids.len() - i,
        {
            assert(ids@.take(i + 1).drop_last() =~= ids@.take(i as int));
            let id = ids[i];
            if registry.get(id).is_some() {
                let n: usize = registry.parent_count(id);
                out.push(
                    (
                        id,
                        if n == 0 {
                            1
                        } else {
                            n
                        },
                    ),
                );
            }
            i = i + 1;
        }
        assert(ids@.take(ids@.len() as int) =~= ids@);
        out
    }

    /// The active power: the fixed one where it is set, else the children's
    /// flows added up, each divided over the meters that share it.
    pub fn aggregate_active<D: Fn(Scalar, usize) -> Scalar, P: Fn(Scalar, Scalar) -> Scalar>(
        &self,
        flows: &Vec<Scalar>,
        shares: &Vec<(u64, usize)>,
        over: &D,
        plus: &P,
    ) -> (out: Scalar)
        requires
            flows.len() == shares.len(),
            forall|i: int| 0 <= i < shares.len() ==> (#[trigger] shares[i]).1 > 0,
            forall|a: Scalar, n: usize| n > 0 ==> call_requires(*over, (a, n)),
            forall|a: Scalar, b: Scalar| call_requires(*plus, (a, b)),
        ensures
            match self.fixed_power_w {
                Some(p) => out == p,
                None => sums_up(*over, *plus, flows@, shares@, out),
            },
    {
        match self.fixed_power_w {
            Some(p) => p,
            None => sum_up(flows, shares, over, plus),
        }
    }

    /// The reactive power: none beside a fixed active power, else the
    /// children's flows added up, each divided over the meters that share it.
    pub fn aggregate_reactive<D: Fn(Scalar, usize) -> Scalar, P: Fn(Scalar, Scalar) -> Scalar>(
        &self,
        flows: &Vec<Scalar>,
        shares: &Vec<(u64, usize)>,
        over: &D,
        plus: &P,
    ) -> (out: Scalar)
        requires
            flows.len() == shares.len(),
            forall|i: int| 0 <= i < shares.len() ==> (#[trigger] shares[i]).1 > 0,
            forall|a: Scalar, n: usize| n > 0 ==> call_requires(*over, (a, n)),
            forall|a: Scalar, b: Scalar| call_requires(*plus, (a, b)),
        ensures
            match self.fixed_power_w {
                Some(_) => out == zero(),
                None => sums_up(*over, *plus, flows@, shares@, out),
            },
    {
        match self.fixed_power_w {
            Some(_) => zero(),
            None => sum_up(flows, shares, over, plus),
        }
    }

    pub fn set_fixed_power(&mut self, watts: Scalar)
        ensures
            *final(self) == (Meter { fixed_power_w: Some(watts), ..*old(self) }),
    {
        self.fixed_power_w = Some(watts);
    }

    /// What the meter reports for its totals.
    pub fn telemetry<S: Fn(Scalar, Phases) -> Phases, C: Fn(Phases, Phases, Phases) -> Phases>(
        &self,
        p: Scalar,
        q: Scalar,
        grid: &GridState,
        split: &S,
        current: &C,
    ) -> (out: Telemetry)
        requires
            forall|a: Scalar, v: Phases| call_requires(*split, (a, v)),
            forall|a: Phases, b: Phases, v: Phases| call_requires(*current, (a, b, v)),
        ensures
            out.id == self.id,
            out.category == Some(Category::Meter),
            reads_ac(out, p, q, *grid, *split, *current),
            is_ac_only(out),
            out.active_power_bounds is None,
            out.reactive_power_bounds is None,
            out.component_state is Some,
            out.component_state->0@ == "ready"@,
    {
        let mut out = ac_telemetry(self.id, Category::Meter, p, q, grid, split, current);
        out.component_state = Some("ready");
        out
    }
}

/// What a meter reads of one child that no other meter shares is that child's
/// flow, a negative one included, where dividing by one and adding to zero
/// change nothing.
pub proof fn lone_child_is_read_as_it_is<
    D: Fn(Scalar, usize) -> Scalar,
    P: Fn(Scalar, Scalar) -> Scalar,
>(over: D, plus: P, id: u64, flow: Scalar, total: Scalar)
    requires
        forall|r: Scalar| #[trigger] call_ensures(over, (flow, 1usize), r) ==> r == flow,
        forall|r: Scalar| #[trigger] call_ensures(plus, (zero(), flow), r) ==> r == flow,
        sums_up(over, plus, seq![flow], seq![(id, 1usize)], total),
    ensures
        total == flow,
{
    let flows = seq![flow];
    let shares = seq![(id, 1usize)];
    let parts = choose|parts: Seq<Scalar>| #[trigger]
        divided(over, flows, shares, parts) && folds(plus, zero(), parts, total);
    let part = parts[0];
    assert(parts =~= seq![part]);
    assert(flows[0] == flow && shares[0].1 == 1);
    assert(call_ensures(over, (flow, 1usize), part));
    short_folds(plus, zero(), part, total);
}

/// One more child adds its share to what the other children come to.
pub proof fn one_more_child_adds_its_share<
    D: Fn(Scalar, usize) -> Scalar,
    P: Fn(Scalar, Scalar) -> Scalar,
>(
    over: D,
    plus: P,
    flows: Seq<Scalar>,
    shares: Seq<(u64, usize)>,
    flow: Scalar,
    share: (u64, usize),
    total: Scalar,
) -> (out: (Scalar, Scalar))
    requires
        flows.len() == shares.len(),
        sums_up(over, plus, flows.push(flow), shares.push(share), total),
    ensures
        sums_up(over, plus, flows, shares, out.0),
        call_ensures(over, (flow, share.1), out.1),
        call_ensures(plus, (out.0, out.1), total),
{
    let all = flows.push(flow);
    let every = shares.push(share);
    let parts = choose|parts: Seq<Scalar>| #[trigger]
        divided(over, all, every, parts) && folds(plus, zero(), parts, total);
    let part = parts.last();
    let rest = parts.drop_last();
    assert(parts =~= rest.push(part));
    assert(all[flows.len() as int] == flow && every[flows.len() as int] == share);
    assert(parts[flows.len() as int] == part);
    let before = last_item_is_one_call(plus, zero(), rest, part, total);
    assert(divided(over, flows, shares, rest)) by {
        assert forall|i: int| 0 <= i < flows.len() implies call_ensures(
            over,
            (flows[i], shares[i].1),
            #[trigger] rest[i],
        ) by {
            assert(rest[i] == parts[i] && all[i] == flows[i] && every[i] == shares[i]);
        }
    }
    (before, part)
}

/// The children's flows, each divided over those who share it, in parts of
/// which `scale` make one.
pub open spec fn shared_sum(
    flows: Seq<Scalar>,
    shares: Seq<(u64, usize)>,
    value: spec_fn(Scalar) -> int,
    scale: int,
) -> int
    decreases flows.len(),
{
    if flows.len() == 0 {
        0
    } else {
        shared_sum(flows.drop_last(), shares.drop_last(), value, scale) + value(flows.last()) * (
        scale / shares.last().1 as int)
    }
}

/// With arithmetic that is exact, a meter reads the signed sum of its
/// children's flows, a child that several meters share by its share: what is
/// drawn counts up, what is fed in counts down. Without sharing that is the
/// plain sum.
pub proof fn reading_is_the_signed_sum<
    D: Fn(Scalar, usize) -> Scalar,
    P: Fn(Scalar, Scalar) -> Scalar,
>(
    over: D,
    plus: P,
    flows: Seq<Scalar>,
    shares: Seq<(u64, usize)>,
    total: Scalar,
    value: spec_fn(Scalar) -> int,
    scale: int,
)
    requires
        flows.len() == shares.len(),
        scale > 0,
        forall|i: int|
            0 <= i < shares.len() ==> (#[trigger] shares[i]).1 > 0 && scale % (
            shares[i].1 as int) == 0,
        value(zero()) == 0,
        forall|a: Scalar, n: usize, r: Scalar| #[trigger]
            call_ensures(over, (a, n), r) ==> value(r) * n == value(a),
        forall|a: Scalar, b: Scalar, r: Scalar| #[trigger]
            call_ensures(plus, (a, b), r) ==> value(r) == value(a) + value(b),
        sums_up(over, plus, flows, shares, total),
    ensures
        value(total) * scale == shared_sum(flows, shares, value, scale),
        (forall|i: int| 0 <= i < shares.len() ==> (#[trigger] shares[i]).1 == 1) ==> value(total)
            == sum_of(flows, value),
    decreases flows.len(),
{
    if flows.len() == 0 {
        let parts = choose|parts: Seq<Scalar>| #[trigger]
            divided(over, flows, shares, parts) && folds(plus, zero(), parts, total);
        assert(parts =~= Seq::<Scalar>::empty());
        short_folds(plus, zero(), total, total);
        assert(value(total) * scale == 0) by (nonlinear_arith)
            requires
                value(total) == 0,
        ;
    } else {
        let (f, s) = (flows.last(), shares.last());
        let (rest, least) = (flows.drop_last(), shares.drop_last());
        assert(rest.push(f) =~= flows && least.push(s) =~= shares);
        let (before, part) = one_more_child_adds_its_share(over, plus, rest, least, f, s, total);
        assert forall|i: int| 0 <= i < least.len() implies (#[trigger] least[i]).1 > 0 && scale % (
        least[i].1 as int) == 0 by {
            assert(least[i] == shares[i]);
        }
        reading_is_the_signed_sum(over, plus, rest, least, before, value, scale);
        assert(shares[shares.len() - 1] == s);
        let n = s.1 as int;
        let k = scale / n;
        vstd::arithmetic::div_mod::lemma_fundamental_div_mod(scale, n);
        assert(value(part) * scale == value(f) * k) by (nonlinear_arith)
            requires
                value(part) * n == value(f),
                scale == n * k,
        ;
        assert((value(before) + value(part)) * scale == value(before) * scale + value(part)
            * scale) by (nonlinear_arith);
        if (forall|i: int| 0 <= i < shares.len() ==> (#[trigger] shares[i]).1 == 1) {
            assert(n == 1);
            assert forall|i: int| 0 <= i < least.len() implies (#[trigger] least[i]).1 == 1 by {
                assert(least[i] == shares[i]);
            }
            assert(value(part) * 1 == value(part));
        }
    }
}

/// Where dividing and adding keep order, a meter whose children draw more, or
/// feed in less, reads no less.
pub proof fn reading_grows_with_its_children<
    D: Fn(Scalar, usize) -> Scalar,
    P: Fn(Scalar, Scalar) -> Scalar,
>(
    over: D,
    plus: P,
    low: Seq<Scalar>,
    high: Seq<Scalar>,
    shares: Seq<(u64, usize)>,
    less: Scalar,
    more: Scalar,
)
    requires
        low.len() == high.len() == shares.len(),
        forall|i: int| 0 <= i < low.len() ==> (#[trigger] low[i]).spec_at_most(high[i]),
        forall|x: Scalar, y: Scalar, n: usize, r: Scalar, s: Scalar|
            #![trigger call_ensures(over, (x, n), r), call_ensures(over, (y, n), s)]
            call_ensures(over, (x, n), r) && call_ensures(over, (y, n), s) && x.spec_at_most(y)
                ==> r.spec_at_most(s),
        forall|x: Scalar, y: Scalar, u: Scalar, v: Scalar, r: Scalar, s: Scalar|
            #![trigger call_ensures(plus, (x, u), r), call_ensures(plus, (y, v), s)]
            call_ensures(plus, (x, u), r) && call_ensures(plus, (y, v), s) && x.spec_at_most(y)
                && u.spec_at_most(v) ==> r.spec_at_most(s),
        sums_up(over, plus, low, shares, less),
        sums_up(over, plus, high, shares, more),
    ensures
        less.spec_at_most(more),
{
    let a = choose|parts: Seq<Scalar>| #[trigger]
        divided(over, low, shares, parts) && folds(plus, zero(), parts, less);
    let b = choose|parts: Seq<Scalar>| #[trigger]
        divided(over, high, shares, parts) && folds(plus, zero(), parts, more);
    let leq = |x: Scalar, y: Scalar| x.spec_at_most(y);
    assert forall|i: int| 0 <= i < a.len() implies #[trigger] leq(a[i], b[i]) by {
        assert(low[i].spec_at_most(high[i]));
        assert(call_ensures(over, (low[i], shares[i].1), a[i]));
        assert(call_ensures(over, (high[i], shares[i].1), b[i]));
    }
    folds_keep_order(plus, zero(), a, b, less, more, leq);
}

/// Every registered child is read once and only those are, each by at least a
/// whole share; its share is the number of edges that lead to it.
pub proof fn registered_children_are_read(
    ids: Seq<u64>,
    components: Seq<Component>,
    connections: Seq<(u64, u64)>,
    id: u64,
)
    requires
        ids.no_duplicates(),
        connections.len() <= usize::MAX,
    ensures
        (exists|k: int|
            0 <= k < shared(ids, components, connections).len() && (#[trigger] shared(
                ids,
                components,
                connections,
            )[k]).0 == id) == (ids.contains(id) && exists|c: int|
            0 <= c < components.len() && (#[trigger] components[c]).id == id),
        forall|k: int|
            0 <= k < shared(ids, components, connections).len() ==> {
                let (child, n) = #[trigger] shared(ids, components, connections)[k];
                let edges = connections.filter(|e: (u64, u64)| e.1 == child).len();
                n == (if edges == 0 {
                    1
                } else {
                    edges as int
                })
            },
        forall|i: int, j: int|
            0 <= i < j < shared(ids, components, connections).len() ==> (#[trigger] shared(
                ids,
                components,
                connections,
            )[i]).0 != (#[trigger] shared(ids, components, connections)[j]).0,
    decreases ids.len(),
{
    let out = shared(ids, components, connections);
    if ids.len() > 0 {
        let init = ids.drop_last();
        let last = ids.last();
        let rest = shared(init, components, connections);
        registered_children_are_read(init, components, connections, id);
        registered_children_are_read(init, components, connections, last);
        component_is_registered(components, last);
        component_is_registered(components, id);
        parents_are_edges(connections, last);
        assert(ids.contains(id) == (init.contains(id) || id == last)) by {
            if init.contains(id) {
                let k = choose|k: int| 0 <= k < init.len() && init[k] == id;
                assert(ids[k] == id);
            }
            if id == last {
                assert(ids[ids.len() - 1] == id);
            }
            if ids.contains(id) && id != last {
                let k = choose|k: int| 0 <= k < ids.len() && ids[k] == id;
                assert(init[k] == id);
            }
        }
        assert(!init.contains(last));
        if component_of(components, last) is Some {
            assert(out.drop_last() =~= rest);
            assert(out[rest.len() as int].0 == last);
            assert forall|k: int| 0 <= k < rest.len() implies out[k] == rest[k] by {}
            if exists|k: int| 0 <= k < rest.len() && (#[trigger] rest[k]).0 == id {
                let k = choose|k: int| 0 <= k < rest.len() && (#[trigger] rest[k]).0 == id;
                assert(out[k].0 == id);
            }
            if exists|k: int| 0 <= k < out.len() && (#[trigger] out[k]).0 == id {
                let k = choose|k: int| 0 <= k < out.len() && (#[trigger] out[k]).0 == id;
                if k < rest.len() {
                    assert(rest[k].0 == id);
                }
            }
            assert forall|i: int, j: int| 0 <= i < j < out.len() implies (#[trigger] out[i]).0 != (
            #[trigger] out[j]).0 by {
                if j == rest.len() && out[i].0 == last {
                    assert(rest[i].0 == last);
                }
            }
        }
    }
}

/// A meter with a fixed power reports that and no reactive power, whatever flows
/// behind it; any other reports what its children sum up to.
pub proof fn fixed_power_takes_the_place_of_the_sum<
    D: Fn(Scalar, usize) -> Scalar,
    P: Fn(Scalar, Scalar) -> Scalar,
>(
    meter: &Meter,
    flows: &Vec<Scalar>,
    shares: &Vec<(u64, usize)>,
    over: &D,
    plus: &P,
    active: Scalar,
    reactive: Scalar,
)
    requires
        call_ensures(Meter::aggregate_active::<D, P>, (meter, flows, shares, over, plus), active),
        call_ensures(
            Meter::aggregate_reactive::<D, P>,
            (meter, flows, shares, over, plus),
            reactive,
        ),
    ensures
        meter.fixed_power_w matches Some(p) ==> active == p && reactive == zero(),
        meter.fixed_power_w is None ==> sums_up(*over, *plus, flows@, shares@, active) && sums_up(
            *over,
            *plus,
            flows@,
            shares@,
            reactive,
        ),
{
}

} // verus!
