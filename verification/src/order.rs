//! Stable ordering by integer keys.

use vstd::prelude::*;

verus! {

/// `order` lists the positions `0..keys.len()` so that the keys ascend and
/// positions with equal keys keep their original order.
pub open spec fn is_stable_order(keys: Seq<int>, order: Seq<int>) -> bool {
    &&& order.len() == keys.len()
    &&& forall|i: int| 0 <= i < order.len() ==> 0 <= #[trigger] order[i] < keys.len()
    &&& forall|i: int, j: int|
        #![trigger order[i], order[j]]
        0 <= i < j < order.len() ==> keys[order[i]] < keys[order[j]] || (keys[order[i]]
            == keys[order[j]] && order[i] < order[j])
}

/// The elements of `items` taken in the given order.
pub open spec fn arranged<T>(items: Seq<T>, order: Seq<int>) -> Seq<T> {
    Seq::new(order.len(), |i: int| items[order[i]])
}

/// The stable order of `keys`; there is exactly one.
pub open spec fn order_of(keys: Seq<int>) -> Seq<int> {
    choose|order: Seq<int>| is_stable_order(keys, order)
}

/// The elements of `items` by ascending key, elements with equal keys in
/// their original order.
pub open spec fn stably_sorted<T>(items: Seq<T>, keys: Seq<int>) -> Seq<T> {
    arranged(items, order_of(keys))
}

pub open spec fn as_ints(s: Seq<i64>) -> Seq<int> {
    s.map_values(|k: i64| k as int)
}

pub open spec fn positions(s: Seq<usize>) -> Seq<int> {
    s.map_values(|k: usize| k as int)
}

/// The stable ascending order of `keys`.
pub fn stable_order(keys: &Vec<i64>) -> (order: Vec<usize>)
    ensures
        is_stable_order(as_ints(keys@), positions(order@)),
        positions(order@) == order_of(as_ints(keys@)),
        order.len() == keys.len(),
        forall|k: int| 0 <= k < order.len() ==> 0 <= #[trigger] order[k] < keys.len(),
{
    let mut order: Vec<usize> = Vec::new();
    let mut n: usize = 0;
    while n < keys.len()
        invariant
            n <= keys.len(),
            order.len() == n,
            forall|i: int| 0 <= i < n ==> 0 <= #[trigger] order[i] < n,
            forall|i: int, j: int|
                #![trigger order[i], order[j]]
                0 <= i < j < n ==> keys[order[i] as int] < keys[order[j] as int] || (
                keys[order[i] as int] == keys[order[j] as int] && order[i] < order[j]),
        decreases keys.len() - n,
    {
        let mut at: usize = n;
        while at > 0 && keys[order[at - 1]] > keys[n]
            invariant
                at <= n < keys.len(),
                order.len() == n,
                forall|i: int| 0 <= i < n ==> 0 <= #[trigger] order[i] < n,
                forall|i: int| at <= i < n ==> keys[#[trigger] order[i] as int] > keys[n as int],
            decreases at,
        {
            at = at - 1;
        }
        let ghost before = order@;
        order.insert(at, n);
        n = n + 1;
        assert forall|i: int, j: int| #![trigger order[i], order[j]] 0 <= i < j < n implies
            keys[order[i] as int] < keys[order[j] as int] || (keys[order[i] as int]
                == keys[order[j] as int] && order[i] < order[j]) by {
            let bi = if i < at { i } else { i - 1 };
            let bj = if j < at { j } else { j - 1 };
            if i != at {
                assert(order[i] == before[bi]);
            }
            if j != at {
                assert(order[j] == before[bj]);
            }
            if j == at && at > 0 {
                assert(keys[before[at - 1] as int] <= keys[n - 1]);
                if bi < at - 1 {
                    assert(keys[before[bi] as int] <= keys[before[at - 1] as int]);
                }
            }
        }
    }
    proof {
        let ks = as_ints(keys@);
        let os = positions(order@);
        assert forall|i: int| 0 <= i < os.len() implies 0 <= #[trigger] os[i] < ks.len() by {
            assert(os[i] == order[i]);
        }
        assert forall|i: int, j: int| #![trigger os[i], os[j]] 0 <= i < j < os.len() implies
            ks[os[i]] < ks[os[j]] || (ks[os[i]] == ks[os[j]] && os[i] < os[j]) by {
            assert(os[i] == order[i]);
            assert(os[j] == order[j]);
        }
        assert(is_stable_order(ks, os));
        stable_order_is_unique(ks, os, order_of(ks));
    }
    order
}

/// A stable order visits every position exactly once.
pub proof fn stable_order_is_permutation(keys: Seq<int>, order: Seq<int>)
    requires
        is_stable_order(keys, order),
    ensures
        order.no_duplicates(),
        forall|p: int| 0 <= p < keys.len() ==> order.contains(p),
{
    assert forall|i: int, j: int| 0 <= i < order.len() && 0 <= j < order.len() && i != j implies
        order[i] != order[j] by {
        if i < j {
            assert(order[i] != order[j]);
        } else {
            assert(order[j] != order[i]);
        }
    }
    let all = vstd::set_lib::set_int_range(0, keys.len() as int);
    vstd::set_lib::lemma_int_range(0, keys.len() as int);
    order.unique_seq_to_set();
    assert(order.to_set().subset_of(all)) by {
        assert forall|p: int| order.to_set().contains(p) implies all.contains(p) by {
            let i = choose|i: int| 0 <= i < order.len() && order[i] == p;
            assert(0 <= order[i] < keys.len());
        }
    }
    vstd::set_lib::lemma_subset_equality(order.to_set(), all);
    assert forall|p: int| 0 <= p < keys.len() implies order.contains(p) by {
        assert(all.contains(p));
        assert(order.to_set().contains(p));
    }
}

/// No two stable orders of the same keys differ.
pub proof fn stable_order_is_unique(keys: Seq<int>, a: Seq<int>, b: Seq<int>)
    requires
        is_stable_order(keys, a),
        is_stable_order(keys, b),
    ensures
        a == b,
{
    assert forall|i: int| 0 <= i < a.len() implies #[trigger] a[i] == b[i] by {
        agree_at(keys, a, b, i);
    }
    assert(a =~= b);
}

proof fn agree_at(keys: Seq<int>, a: Seq<int>, b: Seq<int>, i: int)
    requires
        is_stable_order(keys, a),
        is_stable_order(keys, b),
        0 <= i < a.len(),
    ensures
        a[i] == b[i],
    decreases i,
{
    assert forall|k: int| 0 <= k < i implies #[trigger] a[k] == b[k] by {
        agree_at(keys, a, b, k);
    }
    stable_order_is_permutation(keys, a);
    stable_order_is_permutation(keys, b);
    let p = a[i];
    let q = b[i];
    assert(b.contains(p));
    let j = choose|j: int| 0 <= j < b.len() && b[j] == p;
    assert(a.contains(q));
    let m = choose|m: int| 0 <= m < a.len() && a[m] == q;
    if p != q {
        if j < i {
            assert(a[j] == b[j]);
            assert(false);
        }
        if m < i {
            assert(a[m] == b[m]);
            assert(false);
        }
        assert(b[i] == q && b[j] == p && i < j);
        assert(a[i] == p && a[m] == q && i < m);
        assert(false);
    }
}

/// Every sequence of keys has a stable order.
pub proof fn stable_order_exists(keys: Seq<int>)
    ensures
        is_stable_order(keys, order_of(keys)),
    decreases keys.len(),
{
    let order = build_order(keys);
    assert(is_stable_order(keys, order));
}

proof fn build_order(keys: Seq<int>) -> (order: Seq<int>)
    ensures
        is_stable_order(keys, order),
    decreases keys.len(),
{
    if keys.len() == 0 {
        Seq::empty()
    } else {
        let n = keys.len() - 1;
        let prev = keys.drop_last();
        let before = build_order(prev);
        let at = scan_back(keys, before, n, n);
        let order = before.insert(at, n);
        assert forall|i: int| 0 <= i < order.len() implies 0 <= #[trigger] order[i]
            < keys.len() by {
            if i < at {
                assert(order[i] == before[i]);
            } else if i > at {
                assert(order[i] == before[i - 1]);
            }
        }
        assert forall|i: int, j: int| #![trigger order[i], order[j]] 0 <= i < j
            < order.len() implies keys[order[i]] < keys[order[j]] || (keys[order[i]]
            == keys[order[j]] && order[i] < order[j]) by {
            let bi = if i < at { i } else { i - 1 };
            let bj = if j < at { j } else { j - 1 };
            if i != at {
                assert(order[i] == before[bi]);
                assert(prev[before[bi]] == keys[before[bi]]);
            }
            if j != at {
                assert(order[j] == before[bj]);
                assert(prev[before[bj]] == keys[before[bj]]);
            }
        }
        order
    }
}

proof fn scan_back(keys: Seq<int>, before: Seq<int>, n: int, from: int) -> (at: int)
    requires
        0 <= n,
        keys.len() == n + 1,
        is_stable_order(keys.drop_last(), before),
        0 <= from <= n,
        forall|i: int| from <= i < n ==> keys[#[trigger] before[i]] > keys[n],
    ensures
        0 <= at <= n,
        forall|i: int| 0 <= i < at ==> keys[#[trigger] before[i]] <= keys[n],
        forall|i: int| at <= i < n ==> keys[#[trigger] before[i]] > keys[n],
    decreases from,
{
    let prev = keys.drop_last();
    if from > 0 && keys[before[from - 1]] > keys[n] {
        scan_back(keys, before, n, from - 1)
    } else {
        assert forall|i: int| 0 <= i < from implies keys[#[trigger] before[i]] <= keys[n] by {
            assert(prev[before[i]] == keys[before[i]]);
            assert(prev[before[from - 1]] == keys[before[from - 1]]);
            if i < from - 1 {
                assert(prev[before[i]] <= prev[before[from - 1]]);
            }
        }
        from
    }
}

proof fn arranging_keeps_items<T>(items: Seq<T>, order: Seq<int>)
    requires
        order.len() == items.len(),
        order.no_duplicates(),
        forall|p: int| 0 <= p < items.len() ==> order.contains(p),
        forall|i: int| 0 <= i < order.len() ==> 0 <= #[trigger] order[i] < items.len(),
    ensures
        arranged(items, order).to_multiset() == items.to_multiset(),
    decreases items.len(),
{
    let out = arranged(items, order);
    if items.len() == 0 {
        assert(out =~= items);
    } else {
        let last = items.len() - 1;
        let init = items.drop_last();
        assert(order.contains(last));
        let at = choose|at: int| 0 <= at < order.len() && order[at] == last;
        let fewer = order.remove(at);
        assert forall|i: int| 0 <= i < fewer.len() implies 0 <= #[trigger] fewer[i]
            < init.len() by {
            let from = if i < at { i } else { i + 1 };
            assert(fewer[i] == order[from]);
        }
        assert forall|p: int| 0 <= p < init.len() implies fewer.contains(p) by {
            assert(order.contains(p));
            let i = choose|i: int| 0 <= i < order.len() && order[i] == p;
            assert(fewer[if i < at { i } else { i - 1 }] == p);
        }
        assert(fewer.no_duplicates());
        arranging_keeps_items(init, fewer);
        assert(arranged(init, fewer).insert(at, items.last()) =~= out);
        vstd::seq_lib::to_multiset_insert(arranged(init, fewer), at, items.last());
        vstd::seq_lib::to_multiset_build(init, items.last());
        assert(init.push(items.last()) =~= items);
    }
}

/// Sorting loses no item and adds none.
pub proof fn sorting_keeps_items<T>(items: Seq<T>, keys: Seq<int>)
    requires
        items.len() == keys.len(),
    ensures
        stably_sorted(items, keys).to_multiset() == items.to_multiset(),
{
    stable_order_exists(keys);
    stable_order_is_permutation(keys, order_of(keys));
    arranging_keeps_items(items, order_of(keys));
}

/// Sorting by keys leaves the keys ascending.
pub proof fn sorted_keys_ascend(keys: Seq<int>, i: int, j: int)
    requires
        0 <= i <= j < keys.len(),
    ensures
        stably_sorted(keys, keys)[i] <= stably_sorted(keys, keys)[j],
{
    stable_order_exists(keys);
    let order = order_of(keys);
    if i < j {
        assert(keys[order[i]] <= keys[order[j]]);
    }
}

/// A filter keeps what passes and nothing else.
pub proof fn filtering_keeps_what_passes<T>(items: Seq<T>, test: spec_fn(T) -> bool, item: T)
    ensures
        items.filter(test).contains(item) <==> items.contains(item) && test(item),
        items.filter(test).len() <= items.len(),
    decreases items.len(),
{
    reveal(Seq::filter);
    let out = items.filter(test);
    if items.len() > 0 {
        let init = items.drop_last();
        let last = items.last();
        let rest = init.filter(test);
        filtering_keeps_what_passes(init, test, item);
        if items.contains(item) {
            let k = choose|k: int| 0 <= k < items.len() && items[k] == item;
            if k < init.len() {
                assert(init[k] == item);
            }
        }
        if init.contains(item) {
            let k = choose|k: int| 0 <= k < init.len() && init[k] == item;
            assert(items[k] == item);
        }
        assert(items[items.len() - 1] == last);
        if test(last) {
            assert(out[rest.len() as int] == last);
            if rest.contains(item) {
                let k = choose|k: int| 0 <= k < rest.len() && rest[k] == item;
                assert(out[k] == item);
            }
            if out.contains(item) && item != last {
                let k = choose|k: int| 0 <= k < out.len() && out[k] == item;
                assert(rest[k] == item);
            }
        }
    }
}

} // verus!
