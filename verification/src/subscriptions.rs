//! What one live session is told: which microgrids it follows, and how events
//! reach it.

use crate::dispatch::DispatchEvent;
use crate::events::SiteEvent;
use crate::keys::{ascending_keys, lists_keys};
use crate::microgrids::Microgrids;
use crate::ui_log::LogEvent;
use std::collections::BTreeSet;
use vstd::prelude::*;

verus! {

broadcast use vstd::std_specs::btree::group_btree_axioms;

/// An event on its way to a session, with the microgrid that it comes from;
/// one of the whole enterprise has none.
#[derive(Debug)]
pub struct WireEvent {
    pub mg_id: Option<u64>,
    pub event: SiteEvent,
}

impl WireEvent {
    /// An event of a microgrid's site.
    pub fn of_site(mg_id: u64, event: SiteEvent) -> (out: WireEvent)
        ensures
            out == (WireEvent { mg_id: Some(mg_id), event }),
    {
        WireEvent { mg_id: Some(mg_id), event }
    }

    /// A log record.
    pub fn of_log(line: LogEvent) -> (out: WireEvent)
        ensures
            out == (WireEvent {
                mg_id: None,
                event: SiteEvent::Log {
                    ts_ms: line.ts_ms,
                    level: line.level,
                    target: line.target,
                    message: line.message,
                },
            }),
    {
        WireEvent {
            mg_id: None,
            event: SiteEvent::Log {
                ts_ms: line.ts_ms,
                level: line.level,
                target: line.target,
                message: line.message,
            },
        }
    }

    /// A change in the dispatch store.
    pub fn of_dispatch(change: &DispatchEvent) -> (out: WireEvent)
        ensures
            out == (WireEvent {
                mg_id: Some(change.microgrid_id),
                event: SiteEvent::DispatchChanged {
                    dispatch_id: change.dispatch.spec_id(),
                    change: change.change,
                },
            }),
    {
        WireEvent {
            mg_id: Some(change.microgrid_id),
            event: SiteEvent::DispatchChanged {
                dispatch_id: change.dispatch_id(),
                change: change.change,
            },
        }
    }
}

/// The microgrids that a session follows.
#[derive(Debug)]
pub struct Subscriptions {
    pub ids: BTreeSet<u64>,
}

impl Subscriptions {
    pub fn new() -> (out: Self)
        ensures
            out.ids@ == Set::<u64>::empty(),
    {
        Subscriptions { ids: BTreeSet::new() }
    }

    /// Follows every registered microgrid that is not followed yet, and lists
    /// those ids. A session starts with this, and repeats it where
    /// registrations were missed.
    pub fn catch_up<S>(&mut self, registry: &Microgrids<S>) -> (out: Vec<u64>)
        ensures
            final(self).ids@ == old(self).ids@.union(registry.entries@.dom()),
            lists_keys(registry.entries@.dom().difference(old(self).ids@), out@),
    {
        let keys = ascending_keys(&registry.entries);
        let mut out: Vec<u64> = Vec::new();
        let mut i: usize = 0;
        while i < keys.len()
            invariant
                i <= keys.len(),
                lists_keys(registry.entries@.dom(), keys@),
                forall|k: u64| #[trigger]
                    self.ids@.contains(k) <==> old(self).ids@.contains(k) || keys@.take(
                        i as int,
                    ).contains(k),
                forall|a: int, b: int| 0 <= a < b < out.len() ==> out@[a] < out@[b],
                forall|a: int|
                    0 <= a < out.len() ==> keys@.take(i as int).contains(#[trigger] out@[a]),
                forall|k: u64| #[trigger]
                    out@.contains(k) <==> keys@.take(i as int).contains(k)
                        && !old(self).ids@.contains(k),
            decreases keys.len() - i,
        {
            let id: u64 = keys[i];
            let ghost seen = keys@.take(i as int);
            let ghost next = keys@.take(i + 1);
            let ghost listed = out@;
            assert(next =~= seen.push(id));
            assert forall|k: u64| #[trigger] next.contains(k) <==> seen.contains(k) || k == id by {
                if seen.contains(k) {
                    let p = choose|p: int| 0 <= p < seen.len() && seen[p] == k;
                    assert(next[p] == k);
                }
                assert(next[i as int] == id);
            }
            assert(!seen.contains(id)) by {
                if seen.contains(id) {
                    let p = choose|p: int| 0 <= p < seen.len() && seen[p] == id;
                    assert(keys@[p] < keys@[i as int]);
                }
            }
            if !self.ids.contains(&id) {
                assert forall|a: int| 0 <= a < out.len() implies #[trigger] out@[a] < id by {
                    assert(seen.contains(out@[a]));
                    let p = choose|p: int| 0 <= p < seen.len() && seen[p] == out@[a];
                    assert(keys@[p] < keys@[i as int]);
                }
                self.ids.insert(id);
                out.push(id);
                assert(out@ =~= listed.push(id));
                assert forall|k: u64| #[trigger] out@.contains(k) <==> listed.contains(k) || k
                    == id by {
                    if listed.contains(k) {
                        let p = choose|p: int| 0 <= p < listed.len() && listed[p] == k;
                        assert(out@[p] == k);
                    }
                    assert(out@[listed.len() as int] == id);
                }
            }
            i = i + 1;
        }
        assert(keys@.take(keys.len() as int) =~= keys@);
        assert(self.ids@ =~= old(self).ids@.union(registry.entries@.dom()));
        out
    }

    /// Takes note of a newly registered microgrid, and says whether it is to
    /// be followed from now on: not where it already is, nor where the
    /// registry does not have it.
    pub fn on_registered<S>(&mut self, id: u64, registry: &Microgrids<S>) -> (follow: bool)
        ensures
            follow == (!old(self).ids@.contains(id) && registry.entries@.contains_key(id)),
            final(self).ids@ == (if follow {
                old(self).ids@.insert(id)
            } else {
                old(self).ids@
            }),
    {
        if self.ids.contains(&id) {
            return false;
        }
        if !registry.contains(id) {
            return false;
        }
        self.ids.insert(id);
        true
    }
}

/// A session that has caught up follows each registered microgrid once:
/// catching up again adds nothing.
pub proof fn catching_up_is_complete(followed: Set<u64>, registered: Set<u64>, listed: Seq<u64>)
    requires
        lists_keys(registered.difference(followed.union(registered)), listed),
    ensures
        listed.len() == 0,
        followed.union(registered).union(registered) == followed.union(registered),
{
    if listed.len() > 0 {
        assert(listed.contains(listed[0]));
    }
    assert(followed.union(registered).union(registered) =~= followed.union(registered));
}

} // verus!
