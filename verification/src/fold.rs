//! Left folds with an operation supplied by the caller.

use vstd::prelude::*;

verus! {

/// `out` is `items` folded with `op` from `start`, left to right, each step
/// being one call of `op`.
pub open spec fn folds<T, F: Fn(T, T) -> T>(op: F, start: T, items: Seq<T>, out: T) -> bool
    decreases items.len(),
{
    if items.len() == 0 {
        out == start
    } else {
        exists|mid: T|
            #![trigger call_ensures(op, (mid, items.last()), out)]
            folds(op, start, items.drop_last(), mid) && call_ensures(
                op,
                (mid, items.last()),
                out,
            )
    }
}

/// One more call of `op` extends a fold by one item.
pub proof fn folds_push<T, F: Fn(T, T) -> T>(
    op: F,
    start: T,
    items: Seq<T>,
    mid: T,
    item: T,
    out: T,
)
    requires
        folds(op, start, items, mid),
        call_ensures(op, (mid, item), out),
    ensures
        folds(op, start, items.push(item), out),
{
    assert(items.push(item).drop_last() =~= items);
    assert(call_ensures(op, (mid, items.push(item).last()), out));
}

/// `op` gives one result for one pair of operands.
pub open spec fn is_single_valued<T, F: Fn(T, T) -> T>(op: F) -> bool {
    forall|a: T, b: T, x: T, y: T| #[trigger]
        call_ensures(op, (a, b), x) && #[trigger] call_ensures(op, (a, b), y) ==> x == y
}

/// A fold with an operation that gives one result has one result.
pub proof fn folds_agree<T, F: Fn(T, T) -> T>(op: F, start: T, items: Seq<T>, x: T, y: T)
    requires
        is_single_valued(op),
        folds(op, start, items, x),
        folds(op, start, items, y),
    ensures
        x == y,
    decreases items.len(),
{
    if items.len() > 0 {
        let init = items.drop_last();
        let a = choose|mid: T|
            #![trigger call_ensures(op, (mid, items.last()), x)]
            folds(op, start, init, mid) && call_ensures(op, (mid, items.last()), x);
        let b = choose|mid: T|
            #![trigger call_ensures(op, (mid, items.last()), y)]
            folds(op, start, init, mid) && call_ensures(op, (mid, items.last()), y);
        folds_agree(op, start, init, a, b);
    }
}

/// A fold of nothing is its start, and a fold of one item is one call.
pub proof fn short_folds<T, F: Fn(T, T) -> T>(op: F, start: T, item: T, out: T)
    ensures
        folds(op, start, Seq::empty(), out) == (out == start),
        folds(op, start, seq![item], out) == call_ensures(op, (start, item), out),
{
    let one = seq![item];
    assert(one.drop_last() =~= Seq::<T>::empty());
    assert(one.last() == item);
    if call_ensures(op, (start, item), out) {
        assert(folds(op, start, one.drop_last(), start));
        assert(call_ensures(op, (start, one.last()), out));
    }
    if folds(op, start, one, out) {
        let mid = choose|mid: T|
            #![trigger call_ensures(op, (mid, one.last()), out)]
            folds(op, start, one.drop_last(), mid) && call_ensures(op, (mid, one.last()), out);
        assert(folds(op, start, one.drop_last(), mid));
        assert(mid == start);
    }
}

/// The last item of a fold is taken in by one call, on top of what the others
/// come to.
pub proof fn last_item_is_one_call<T, F: Fn(T, T) -> T>(
    op: F,
    start: T,
    items: Seq<T>,
    item: T,
    out: T,
) -> (mid: T)
    requires
        folds(op, start, items.push(item), out),
    ensures
        folds(op, start, items, mid),
        call_ensures(op, (mid, item), out),
{
    let all = items.push(item);
    assert(all.drop_last() =~= items);
    choose|mid: T|
        #![trigger call_ensures(op, (mid, all.last()), out)]
        folds(op, start, all.drop_last(), mid) && call_ensures(op, (mid, all.last()), out)
}

/// What `value` makes of the items, added up.
pub open spec fn sum_of<T>(items: Seq<T>, value: spec_fn(T) -> int) -> int
    decreases items.len(),
{
    if items.len() == 0 {
        0
    } else {
        sum_of(items.drop_last(), value) + value(items.last())
    }
}

/// With an addition that is exact, a fold adds every item to its start, with
/// its sign and once.
pub proof fn exact_fold_adds_up<T, F: Fn(T, T) -> T>(
    op: F,
    start: T,
    items: Seq<T>,
    out: T,
    value: spec_fn(T) -> int,
)
    requires
        folds(op, start, items, out),
        forall|a: T, b: T, r: T| #[trigger]
            call_ensures(op, (a, b), r) ==> value(r) == value(a) + value(b),
    ensures
        value(out) == value(start) + sum_of(items, value),
    decreases items.len(),
{
    if items.len() > 0 {
        let init = items.drop_last();
        let mid = choose|mid: T|
            #![trigger call_ensures(op, (mid, items.last()), out)]
            folds(op, start, init, mid) && call_ensures(op, (mid, items.last()), out);
        exact_fold_adds_up(op, start, init, mid, value);
    }
}

/// With an operation that keeps an order, larger items fold to no less.
pub proof fn folds_keep_order<T, F: Fn(T, T) -> T>(
    op: F,
    start: T,
    low: Seq<T>,
    high: Seq<T>,
    a: T,
    b: T,
    leq: spec_fn(T, T) -> bool,
)
    requires
        low.len() == high.len(),
        leq(start, start),
        forall|i: int| 0 <= i < low.len() ==> #[trigger] leq(low[i], high[i]),
        forall|x: T, y: T, u: T, v: T, r: T, s: T|
            #![trigger call_ensures(op, (x, u), r), call_ensures(op, (y, v), s)]
            call_ensures(op, (x, u), r) && call_ensures(op, (y, v), s) && leq(x, y) && leq(u, v)
                ==> leq(r, s),
        folds(op, start, low, a),
        folds(op, start, high, b),
    ensures
        leq(a, b),
    decreases low.len(),
{
    if low.len() > 0 {
        let x = low.drop_last();
        let y = high.drop_last();
        let m = choose|mid: T|
            #![trigger call_ensures(op, (mid, low.last()), a)]
            folds(op, start, x, mid) && call_ensures(op, (mid, low.last()), a);
        let n = choose|mid: T|
            #![trigger call_ensures(op, (mid, high.last()), b)]
            folds(op, start, y, mid) && call_ensures(op, (mid, high.last()), b);
        assert forall|i: int| 0 <= i < x.len() implies #[trigger] leq(x[i], y[i]) by {
            assert(leq(low[i], high[i]));
        }
        folds_keep_order(op, start, x, y, m, n, leq);
        assert(leq(low[low.len() - 1], high[high.len() - 1]));
        assert(call_ensures(op, (m, low.last()), a) && call_ensures(op, (n, high.last()), b));
    }
}

} // verus!
