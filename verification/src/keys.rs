//! Maps keyed by id, read in ascending key order.

use std::collections::BTreeMap;
use vstd::prelude::*;
use vstd::std_specs::cmp::OrdSpec;
use vstd::std_specs::iter::IteratorSpec;

verus! {

broadcast use vstd::std_specs::btree::group_btree_axioms;

/// `keys` lists the ids of `dom`, each once, ascending.
pub open spec fn lists_keys(dom: Set<u64>, keys: Seq<u64>) -> bool {
    &&& forall|i: int, j: int| 0 <= i < j < keys.len() ==> keys[i] < keys[j]
    &&& forall|k: u64| dom.contains(k) <==> #[trigger] keys.contains(k)
}

/// The ids of `m` in ascending order.
pub fn ascending_keys<V>(m: &BTreeMap<u64, V>) -> (out: Vec<u64>)
    ensures
        lists_keys(m@.dom(), out@),
        out.len() == m@.len(),
{
    let mut out: Vec<u64> = Vec::new();
    for kv in it: m.iter()
        invariant
            out@ == it.seq().subrange(0, it.index()).map_values(|kv: (&u64, &V)| *kv.0),
    {
        out.push(*kv.0);
        assert(out@ =~= it.seq().subrange(0, it.index() + 1).map_values(
            |kv: (&u64, &V)| *kv.0,
        ));
    }
    proof {
        let pairs = vstd::std_specs::btree::spec_btree_map_iter(m).remaining();
        assert(out@ =~= pairs.map_values(|kv: (&u64, &V)| *kv.0));
        assert(vstd::std_specs::btree::increasing_seq(out@));
        assert forall|i: int, j: int| 0 <= i < j < out.len() implies out[i] < out[j] by {
            assert(out@[i].cmp_spec(&out@[j]) is Less);
        }
        assert forall|k: u64| m@.dom().contains(k) <==> #[trigger] out@.contains(k) by {
            if m@.contains_key(k) {
                assert(pairs.contains((&k, &m@[k])));
                let i = choose|i: int| 0 <= i < pairs.len() && pairs[i] == (&k, &m@[k]);
                assert(out@[i] == k);
            }
            if out@.contains(k) {
                let i = choose|i: int| 0 <= i < out.len() && out[i] == k;
                assert(m@.contains_key(*pairs[i].0));
            }
        }
    }
    out
}

/// Two ascending listings of the same ids are the same.
pub proof fn listing_is_unique(dom: Set<u64>, a: Seq<u64>, b: Seq<u64>)
    requires
        lists_keys(dom, a),
        lists_keys(dom, b),
    ensures
        a == b,
    decreases a.len(),
{
    if a.len() == 0 {
        if b.len() > 0 {
            assert(b.contains(b[0]));
            assert(a.contains(b[0]));
        }
        assert(a =~= b);
    } else {
        assert(a.contains(a[0]));
        assert(b.contains(a[0]));
        let j = choose|j: int| 0 <= j < b.len() && b[j] == a[0];
        assert(b.contains(b[0]));
        assert(a.contains(b[0]));
        let i = choose|i: int| 0 <= i < a.len() && a[i] == b[0];
        assert(a[0] == b[0]);
        let ra = a.drop_first();
        let rb = b.drop_first();
        let rest = dom.remove(a[0]);
        assert forall|k: u64| rest.contains(k) <==> #[trigger] ra.contains(k) by {
            if rest.contains(k) {
                assert(a.contains(k));
                let p = choose|p: int| 0 <= p < a.len() && a[p] == k;
                assert(ra[p - 1] == k);
            }
            if ra.contains(k) {
                let p = choose|p: int| 0 <= p < ra.len() && ra[p] == k;
                assert(a[p + 1] == k);
                assert(a.contains(k));
            }
        }
        assert forall|k: u64| rest.contains(k) <==> #[trigger] rb.contains(k) by {
            if rest.contains(k) {
                assert(b.contains(k));
                let p = choose|p: int| 0 <= p < b.len() && b[p] == k;
                assert(rb[p - 1] == k);
            }
            if rb.contains(k) {
                let p = choose|p: int| 0 <= p < rb.len() && rb[p] == k;
                assert(b[p + 1] == k);
                assert(b.contains(k));
            }
        }
        listing_is_unique(rest, ra, rb);
        assert(a =~= seq![a[0]] + ra);
        assert(b =~= seq![b[0]] + rb);
    }
}

} // verus!
