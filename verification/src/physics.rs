//! A physics pass: every component ticks once, in registration order.

use crate::fold::sum_of;
use crate::registry::{Component, Registry};
use crate::site::MicrogridSite;
use crate::world::World;
use vstd::prelude::*;

verus! {

/// `out` is the state of the devices once each of `components` has ticked,
/// one after the other, from `start` on.
pub open spec fn ticked<D, T: Fn(D, &Component) -> D>(
    tick: T,
    start: D,
    components: Seq<Component>,
    out: D,
) -> bool
    decreases components.len(),
{
    if components.len() == 0 {
        out == start
    } else {
        exists|mid: D|
            #![trigger call_ensures(tick, (mid, &components.last()), out)]
            ticked(tick, start, components.drop_last(), mid) && call_ensures(
                tick,
                (mid, &components.last()),
                out,
            )
    }
}

impl Registry {
    /// Ticks every component once.
    fn tick_all<D, T: Fn(D, &Component) -> D>(&self, state: D, tick: T) -> (out: D)
        requires
            forall|d: D, c: &Component| call_requires(tick, (d, c)),
        ensures
            ticked(tick, state, self.components@, out),
    {
        let ghost start = state;
        let mut current = state;
        let mut i: usize = 0;
        assert(self.components@.take(0) =~= Seq::<Component>::empty());
        while i < self.components.len()
            invariant
                i <= self.components.len(),
                forall|d: D, c: &Component| call_requires(tick, (d, c)),
                ticked(tick, start, self.components@.take(i as int), current),
            decreases self.components.len() - i,
        {
            let ghost seen = self.components@.take(i + 1);
            assert(seen.drop_last() =~= self.components@.take(i as int));
            let ghost mid = current;
            let next = tick(current, &self.components[i]);
            assert(call_ensures(tick, (mid, &seen.last()), next));
            current = next;
            i = i + 1;
        }
        assert(self.components@.take(self.components@.len() as int) =~= self.components@);
        current
    }
}

impl MicrogridSite {
    /// One physics pass. Components are registered before those that read
    /// them, so one pass reaches leaves before the meters above them.
    pub fn tick_once<D, T: Fn(D, &Component) -> D>(&self, state: D, tick: T) -> (out: D)
        requires
            forall|d: D, c: &Component| call_requires(tick, (d, c)),
        ensures
            ticked(tick, state, self.registry.components@, out),
    {
        self.registry.tick_all(state, tick)
    }
}

impl World {
    /// One physics pass; the hook, where there is one, runs before any
    /// component ticks.
    pub fn tick_once<D, H: FnOnce(D) -> D, T: Fn(D, &Component) -> D>(
        &self,
        state: D,
        pre_tick: Option<H>,
        tick: T,
    ) -> (out: D)
        requires
            pre_tick matches Some(hook) ==> call_requires(hook, (state,)),
            forall|d: D, c: &Component| call_requires(tick, (d, c)),
        ensures
            match pre_tick {
                None => ticked(tick, state, self.registry.components@, out),
                Some(hook) => exists|hooked: D| #[trigger]
                    call_ensures(hook, (state,), hooked) && ticked(
                        tick,
                        hooked,
                        self.registry.components@,
                        out,
                    ),
            },
    {
        match pre_tick {
            Some(hook) => {
                let hooked = hook(state);
                self.registry.tick_all(hooked, tick)
            },
            None => self.registry.tick_all(state, tick),
        }
    }
}

/// A pass over no component changes nothing, over one it is that component's
/// tick, and over one more it ends with that one's tick.
pub proof fn passes_are_ticks_in_order<D, T: Fn(D, &Component) -> D>(
    tick: T,
    start: D,
    components: Seq<Component>,
    c: Component,
    mid: D,
    out: D,
)
    ensures
        ticked(tick, start, Seq::empty(), out) <==> out == start,
        ticked(tick, start, seq![c], out) <==> call_ensures(tick, (start, &c), out),
        ticked(tick, start, components, mid) && call_ensures(tick, (mid, &c), out) ==> ticked(
            tick,
            start,
            components.push(c),
            out,
        ),
{
    reveal_with_fuel(ticked, 2);
    assert(seq![c].drop_last() =~= Seq::<Component>::empty());
    assert(seq![c].last() == c);
    if ticked(tick, start, seq![c], out) {
        let at = choose|at: D|
            #![trigger call_ensures(tick, (at, &seq![c].last()), out)]
            ticked(tick, start, seq![c].drop_last(), at) && call_ensures(
                tick,
                (at, &seq![c].last()),
                out,
            );
        assert(at == start);
    }
    if call_ensures(tick, (start, &c), out) {
        assert(call_ensures(tick, (start, &seq![c].last()), out));
    }
    assert(components.push(c).drop_last() =~= components);
    assert(components.push(c).last() == c);
    if ticked(tick, start, components, mid) && call_ensures(tick, (mid, &c), out) {
        assert(call_ensures(tick, (mid, &components.push(c).last()), out));
    }
}

/// Every component ticks once in a pass: what each tick adds to a quantity of
/// the devices, the pass adds as often as there are components.
pub proof fn every_component_ticks_once<D, T: Fn(D, &Component) -> D>(
    tick: T,
    start: D,
    components: Seq<Component>,
    out: D,
    quantity: spec_fn(D) -> int,
    added: spec_fn(Component) -> int,
)
    requires
        ticked(tick, start, components, out),
        forall|d: D, c: &Component, r: D| #[trigger]
            call_ensures(tick, (d, c), r) ==> quantity(r) == quantity(d) + added(*c),
    ensures
        quantity(out) == quantity(start) + sum_of(components, added),
    decreases components.len(),
{
    if components.len() > 0 {
        let init = components.drop_last();
        let mid = choose|mid: D|
            #![trigger call_ensures(tick, (mid, &components.last()), out)]
            ticked(tick, start, init, mid) && call_ensures(tick, (mid, &components.last()), out);
        every_component_ticks_once(tick, start, init, mid, quantity, added);
    }
}

} // verus!
