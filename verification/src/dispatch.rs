//! In-memory dispatch store: dispatches by microgrid and id, and the lifecycle
//! changes that mutations give rise to.
//!
//! The store only keeps and serves dispatches; it never executes one. Every
//! mutation returns the event to fan out to subscribers.

use crate::keys::{ascending_keys, lists_keys};
use crate::payload::WireStruct;
use crate::target::TargetComponents;
use crate::time::{timestamp_of, Moment, Timestamp, FIRST_SECOND, LAST_SECOND};
use std::collections::BTreeMap;
use std::sync::Arc;
use vstd::prelude::*;

verus! {

broadcast use vstd::std_specs::btree::group_btree_axioms;

/// Why a dispatch mutation was refused.
#[derive(Clone, Copy, Debug, PartialEq, Eq, Structural)]
pub enum DispatchError {
    /// Neither a start time nor an immediate start was given.
    MissingStartTime,
    /// No dispatch with that id exists for the microgrid.
    NotFound,
}

impl DispatchError {
    pub open spec fn spec_message(self) -> Seq<char> {
        match self {
            DispatchError::MissingStartTime =>
            "start_time is required unless start_immediately is set"@,
            DispatchError::NotFound => "dispatch not found"@,
        }
    }

    pub fn message(&self) -> (out: &'static str)
        ensures
            out@ == self.spec_message(),
    {
        match self {
            DispatchError::MissingStartTime =>
            "start_time is required unless start_immediately is set",
            DispatchError::NotFound => "dispatch not found",
        }
    }
}

/// Which lifecycle transition an event reports.
#[derive(Clone, Copy, Debug, PartialEq, Eq, Structural)]
pub enum DispatchChange {
    Created,
    Updated,
    Deleted,
}

impl DispatchChange {
    pub open spec fn spec_name(self) -> Seq<char> {
        match self {
            DispatchChange::Created => "created"@,
            DispatchChange::Updated => "updated"@,
            DispatchChange::Deleted => "deleted"@,
        }
    }

    /// The name of the change on the event stream.
    pub fn as_str(self) -> (out: &'static str)
        ensures
            out@ == self.spec_name(),
    {
        match self {
            DispatchChange::Created => "created",
            DispatchChange::Updated => "updated",
            DispatchChange::Deleted => "deleted",
        }
    }
}

/// When a recurrence ends.
#[derive(Clone, Copy, Debug, PartialEq, Eq, Structural)]
pub enum EndCriteria {
    Count(u32),
    Until(Timestamp),
}

/// How a dispatch recurs. A frequency of zero is unspecified.
#[derive(Debug)]
pub struct RecurrenceRule {
    pub freq: i32,
    pub interval: u32,
    pub end_criteria: Option<EndCriteria>,
    pub byminutes: Vec<u32>,
    pub byhours: Vec<u32>,
    pub byweekdays: Vec<i32>,
    pub bymonthdays: Vec<u32>,
    pub bymonths: Vec<u32>,
}

/// What a caller asks for.
#[derive(Debug)]
pub struct DispatchData {
    pub type_: String,
    pub start_time: Option<Timestamp>,
    /// Seconds; absent for an indefinite dispatch.
    pub duration: Option<u32>,
    pub target: Option<Arc<TargetComponents>>,
    pub is_active: bool,
    pub is_dry_run: bool,
    pub payload: Option<Arc<WireStruct>>,
    pub recurrence: Option<Arc<RecurrenceRule>>,
}

/// What the store adds.
#[derive(Clone, Copy, Debug, PartialEq, Eq, Structural)]
pub struct DispatchMetadata {
    pub dispatch_id: u64,
    pub create_time: Option<Timestamp>,
    pub update_time: Option<Timestamp>,
    pub end_time: Option<Timestamp>,
}

#[derive(Debug)]
pub struct Dispatch {
    pub metadata: Option<DispatchMetadata>,
    pub data: Option<DispatchData>,
}

/// `Arc::clone`: another handle to the same value.
#[verifier::external_body]
fn share<T>(a: &Arc<T>) -> (out: Arc<T>)
    ensures
        out == *a,
{
    Arc::clone(a)
}

fn share_option<T>(a: &Option<Arc<T>>) -> (out: Option<Arc<T>>)
    ensures
        out == *a,
{
    match a {
        Some(x) => Some(share(x)),
        None => None,
    }
}

impl Clone for DispatchData {
    fn clone(&self) -> (out: Self)
        ensures
            out == *self,
    {
        DispatchData {
            type_: self.type_.clone(),
            start_time: self.start_time,
            duration: self.duration,
            target: share_option(&self.target),
            is_active: self.is_active,
            is_dry_run: self.is_dry_run,
            payload: share_option(&self.payload),
            recurrence: share_option(&self.recurrence),
        }
    }
}

impl Clone for Dispatch {
    fn clone(&self) -> (out: Self)
        ensures
            out == *self,
    {
        Dispatch {
            metadata: self.metadata,
            data: match &self.data {
                Some(d) => Some(d.clone()),
                None => None,
            },
        }
    }
}

/// A lifecycle change; it carries the whole dispatch, also where that has
/// just left the store.
#[derive(Debug)]
pub struct DispatchEvent {
    pub microgrid_id: u64,
    pub change: DispatchChange,
    pub dispatch: Dispatch,
}

impl Dispatch {
    /// The id of the dispatch; zero without metadata.
    pub open spec fn spec_id(self) -> u64 {
        match self.metadata {
            Some(m) => m.dispatch_id,
            None => 0,
        }
    }

    fn id(&self) -> (out: u64)
        ensures
            out == self.spec_id(),
    {
        match &self.metadata {
            Some(m) => m.dispatch_id,
            None => 0,
        }
    }
}

impl DispatchEvent {
    pub fn dispatch_id(&self) -> (out: u64)
        ensures
            out == self.dispatch.spec_id(),
    {
        self.dispatch.id()
    }
}

impl DispatchData {
    /// The rule carries a real frequency.
    pub open spec fn spec_recurring(self) -> bool {
        self.recurrence matches Some(r) && r.freq != 0
    }
}

/// A dispatch recurs if its rule carries a specified frequency.
pub fn is_recurring(data: &DispatchData) -> (out: bool)
    ensures
        out == data.spec_recurring(),
{
    match &data.recurrence {
        Some(r) => r.freq != 0,
        None => false,
    }
}

/// When a dispatch ends: only a one-off with a start and a duration has an
/// end, and only where it lies in the calendar.
pub open spec fn end_time(
    start: Option<Timestamp>,
    duration_s: Option<u32>,
    recurring: bool,
) -> Option<Timestamp> {
    match (start, duration_s) {
        (Some(t), Some(d)) => if recurring {
            None
        } else {
            t.spec_later(d)
        },
        _ => None,
    }
}

pub fn compute_end_time(start: Option<&Timestamp>, duration_s: Option<u32>, recurring: bool) -> (out:
    Option<Timestamp>)
    ensures
        out == end_time(
            (match start {
                Some(t) => Some(*t),
                None => None,
            }),
            duration_s,
            recurring,
        ),
{
    if recurring {
        return None;
    }
    match (start, duration_s) {
        (Some(t), Some(d)) => t.later(d),
        _ => None,
    }
}

/// `d` with its update time set to `now` and its end derived anew.
pub open spec fn stamped(d: Dispatch, now: Moment) -> Dispatch {
    Dispatch {
        metadata: match d.metadata {
            None => None,
            Some(m) => Some(
                DispatchMetadata {
                    update_time: Some(timestamp_of(now)),
                    end_time: match d.data {
                        Some(data) => end_time(
                            data.start_time,
                            data.duration,
                            data.spec_recurring(),
                        ),
                        None => None,
                    },
                    ..m
                },
            ),
        },
        data: d.data,
    }
}

/// Re-stamps a dispatch after an in-place edit.
pub fn stamp_updated(dispatch: Dispatch, now: Moment) -> (out: Dispatch)
    requires
        now.in_calendar(),
    ensures
        out == stamped(dispatch, now),
{
    let end = match &dispatch.data {
        Some(d) => compute_end_time(d.start_time.as_ref(), d.duration, is_recurring(d)),
        None => None,
    };
    let metadata = match dispatch.metadata {
        Some(m) => Some(
            DispatchMetadata {
                dispatch_id: m.dispatch_id,
                create_time: m.create_time,
                update_time: Some(now.timestamp()),
                end_time: end,
            },
        ),
        None => None,
    };
    Dispatch { metadata, data: dispatch.data }
}

/// `data` as it is stored: an immediate start overrides the start time.
pub open spec fn started(data: DispatchData, start_immediately: bool, now: Moment) -> DispatchData {
    if start_immediately {
        DispatchData { start_time: Some(timestamp_of(now)), ..data }
    } else {
        data
    }
}

/// A freshly created dispatch.
pub open spec fn created(data: DispatchData, id: u64, now: Moment) -> Dispatch {
    Dispatch {
        metadata: Some(
            DispatchMetadata {
                dispatch_id: id,
                create_time: Some(timestamp_of(now)),
                update_time: Some(timestamp_of(now)),
                end_time: end_time(data.start_time, data.duration, data.spec_recurring()),
            },
        ),
        data: Some(data),
    }
}

/// The dispatches of every microgrid.
#[derive(Debug)]
pub struct DispatchStore {
    pub inner: BTreeMap<u64, BTreeMap<u64, Dispatch>>,
    pub next_id: u64,
}

/// Builds an empty store. Ids start at one; zero reads as unset on the wire.
pub fn new_store() -> (out: DispatchStore)
    ensures
        out.wf(),
        out.next_id == 1,
        forall|mg: u64, id: u64| #[trigger] out.record(mg, id) is None,
{
    DispatchStore { inner: BTreeMap::new(), next_id: 1 }
}

/// The number of dispatches under `keys`.
spec fn sum_sizes(inner: Map<u64, BTreeMap<u64, Dispatch>>, keys: Seq<u64>) -> nat
    decreases keys.len(),
{
    if keys.len() == 0 {
        0
    } else {
        sum_sizes(inner, keys.drop_last()) + inner[keys.last()]@.len()
    }
}

impl DispatchStore {
    /// No microgrid lingers without dispatches.
    pub open spec fn wf(self) -> bool {
        forall|mg: u64| #[trigger]
            self.inner@.contains_key(mg) ==> self.inner@[mg]@.dom().len() > 0
    }

    /// The dispatch `id` of microgrid `mg`.
    pub open spec fn record(self, mg: u64, id: u64) -> Option<Dispatch> {
        if self.inner@.contains_key(mg) && self.inner@[mg]@.contains_key(id) {
            Some(self.inner@[mg]@[id])
        } else {
            None
        }
    }

    /// The dispatches there are, each by its microgrid and id.
    pub open spec fn places(self) -> Set<(u64, u64)> {
        Set::new(|k: (u64, u64)| self.record(k.0, k.1) is Some)
    }

    /// Every record but `(mg, id)` is as in `before`.
    pub open spec fn same_elsewhere(self, before: Self, mg: u64, id: u64) -> bool {
        forall|m: u64, d: u64|
            (m, d) != (mg, id) ==> #[trigger] self.record(m, d) == before.record(m, d)
    }

    /// Allocates the next id.
    pub fn alloc_id(&mut self) -> (id: u64)
        requires
            old(self).next_id < u64::MAX,
        ensures
            id == old(self).next_id,
            final(self).next_id == id + 1,
            final(self).inner == old(self).inner,
    {
        let id: u64 = self.next_id;
        self.next_id = id + 1;
        id
    }

    /// Puts `dispatch` under its id, whether or not one was there.
    fn put(&mut self, microgrid_id: u64, id: u64, dispatch: Dispatch)
        requires
            old(self).wf(),
        ensures
            final(self).wf(),
            final(self).next_id == old(self).next_id,
            final(self).record(microgrid_id, id) == Some(dispatch),
            final(self).same_elsewhere(*old(self), microgrid_id, id),
    {
        let mut of_mg = match self.inner.remove(&microgrid_id) {
            Some(m) => m,
            None => BTreeMap::new(),
        };
        of_mg.insert(id, dispatch);
        self.inner.insert(microgrid_id, of_mg);
        proof {
            assert(of_mg@.dom().contains(id));
            assert forall|mg: u64| #[trigger] self.inner@.contains_key(mg) implies
                self.inner@[mg]@.dom().len() > 0 by {
                if mg == microgrid_id {
                    assert(self.inner@[mg]@.dom().contains(id));
                    nonempty_len(self.inner@[mg]@.dom(), id);
                } else {
                    assert(old(self).inner@.contains_key(mg));
                }
            }
        }
    }

    /// Inserts a new dispatch under the id that its metadata carries.
    pub fn insert(&mut self, microgrid_id: u64, dispatch: Dispatch) -> (event: DispatchEvent)
        requires
            old(self).wf(),
        ensures
            final(self).wf(),
            final(self).next_id == old(self).next_id,
            final(self).record(microgrid_id, dispatch.spec_id()) == Some(dispatch),
            final(self).same_elsewhere(*old(self), microgrid_id, dispatch.spec_id()),
            event == (DispatchEvent { microgrid_id, change: DispatchChange::Created, dispatch }),
    {
        let id: u64 = dispatch.id();
        let copy = dispatch.clone();
        self.put(microgrid_id, id, copy);
        DispatchEvent { microgrid_id, change: DispatchChange::Created, dispatch }
    }

    /// Overwrites an existing dispatch. Nothing happens where the microgrid
    /// has none of that id.
    pub fn replace(&mut self, microgrid_id: u64, dispatch: Dispatch) -> (event: Option<
        DispatchEvent,
    >)
        requires
            old(self).wf(),
        ensures
            final(self).wf(),
            final(self).next_id == old(self).next_id,
            event is Some == old(self).record(microgrid_id, dispatch.spec_id()) is Some,
            event is None ==> *final(self) == *old(self),
            event matches Some(e) ==> {
                &&& e == (DispatchEvent {
                    microgrid_id,
                    change: DispatchChange::Updated,
                    dispatch,
                })
                &&& final(self).record(microgrid_id, dispatch.spec_id()) == Some(dispatch)
                &&& final(self).same_elsewhere(*old(self), microgrid_id, dispatch.spec_id())
            },
    {
        let id: u64 = dispatch.id();
        if self.lookup(microgrid_id, id).is_none() {
            return None;
        }
        let copy = dispatch.clone();
        self.put(microgrid_id, id, copy);
        Some(DispatchEvent { microgrid_id, change: DispatchChange::Updated, dispatch })
    }

    /// Removes a dispatch; the event carries it.
    pub fn remove(&mut self, microgrid_id: u64, dispatch_id: u64) -> (event: Option<DispatchEvent>)
        requires
            old(self).wf(),
        ensures
            final(self).wf(),
            removes(*old(self), *final(self), microgrid_id, dispatch_id, event),
    {
        let mut of_mg = match self.inner.remove(&microgrid_id) {
            Some(m) => m,
            None => {
                assert(self.inner@ =~= old(self).inner@);
                return None;
            },
        };
        let gone = of_mg.remove(&dispatch_id);
        let ghost rest = of_mg@;
        if of_mg.len() > 0 {
            self.inner.insert(microgrid_id, of_mg);
            assert forall|mg: u64| #[trigger] self.inner@.contains_key(mg) implies
                self.inner@[mg]@.dom().len() > 0 by {
                if mg != microgrid_id {
                    assert(old(self).inner@.contains_key(mg));
                }
            }
        } else {
            assert(rest.dom().len() == 0);
            assert(rest.dom() =~= Set::empty());
            assert forall|mg: u64| #[trigger] self.inner@.contains_key(mg) implies
                self.inner@[mg]@.dom().len() > 0 by {
                assert(old(self).inner@.contains_key(mg));
            }
            assert forall|d: u64| d != dispatch_id implies #[trigger] old(self).record(
                microgrid_id,
                d,
            ) is None by {
                assert(!rest.contains_key(d));
            }
        }
        match gone {
            Some(dispatch) => Some(
                DispatchEvent { microgrid_id, change: DispatchChange::Deleted, dispatch },
            ),
            None => None,
        }
    }

    /// Builds and stores a new dispatch: the one construction path. Refused
    /// where it has no start time.
    pub fn create(
        &mut self,
        microgrid_id: u64,
        data: DispatchData,
        start_immediately: bool,
        now: Moment,
    ) -> (out: Result<DispatchEvent, DispatchError>)
        requires
            old(self).wf(),
            old(self).next_id < u64::MAX,
            now.in_calendar(),
        ensures
            final(self).wf(),
            creates(
                *old(self),
                *final(self),
                microgrid_id,
                started(data, start_immediately, now),
                now,
                out,
            ),
    {
        let stamp = now.timestamp();
        let stored = if start_immediately {
            DispatchData { start_time: Some(stamp), ..data }
        } else {
            data
        };
        if stored.start_time.is_none() {
            return Err(DispatchError::MissingStartTime);
        }
        let recurring = is_recurring(&stored);
        let end = compute_end_time(stored.start_time.as_ref(), stored.duration, recurring);
        let id: u64 = self.alloc_id();
        let dispatch = Dispatch {
            metadata: Some(
                DispatchMetadata {
                    dispatch_id: id,
                    create_time: Some(stamp),
                    update_time: Some(stamp),
                    end_time: end,
                },
            ),
            data: Some(stored),
        };
        Ok(self.insert(microgrid_id, dispatch))
    }

    /// Applies `f` to a stored dispatch and re-stamps it.
    pub fn update_with<F: FnOnce(Dispatch) -> Dispatch>(
        &mut self,
        microgrid_id: u64,
        dispatch_id: u64,
        now: Moment,
        f: F,
    ) -> (out: Result<DispatchEvent, DispatchError>)
        requires
            old(self).wf(),
            now.in_calendar(),
            forall|d: Dispatch| call_requires(f, (d,)),
        ensures
            final(self).wf(),
            final(self).next_id == old(self).next_id,
            match old(self).record(microgrid_id, dispatch_id) {
                None => {
                    &&& out == Err::<DispatchEvent, _>(DispatchError::NotFound)
                    &&& *final(self) == *old(self)
                },
                Some(d) => exists|edited: Dispatch| #[trigger]
                    call_ensures(f, (d,), edited) && out == Ok::<_, DispatchError>(
                        DispatchEvent {
                            microgrid_id,
                            change: DispatchChange::Updated,
                            dispatch: stamped(edited, now),
                        },
                    ) && final(self).record(microgrid_id, dispatch_id) == Some(
                        stamped(edited, now),
                    ) && final(self).same_elsewhere(*old(self), microgrid_id, dispatch_id),
            },
    {
        let current = match self.lookup(microgrid_id, dispatch_id) {
            Some(d) => d.clone(),
            None => {
                return Err(DispatchError::NotFound);
            },
        };
        let edited = f(current);
        let dispatch = stamp_updated(edited, now);
        let copy = dispatch.clone();
        self.put(microgrid_id, dispatch_id, copy);
        Ok(DispatchEvent { microgrid_id, change: DispatchChange::Updated, dispatch })
    }

    /// Pauses or resumes a dispatch.
    pub fn set_active(
        &mut self,
        microgrid_id: u64,
        dispatch_id: u64,
        active: bool,
        now: Moment,
    ) -> (out: Result<DispatchEvent, DispatchError>)
        requires
            old(self).wf(),
            now.in_calendar(),
        ensures
            final(self).wf(),
            final(self).next_id == old(self).next_id,
            switches(*old(self), *final(self), microgrid_id, dispatch_id, active, now, out),
    {
        let switch = |d: Dispatch| -> (out: Dispatch)
            ensures
                out == with_active(d, active),
            {
                match d.data {
                    Some(data) => Dispatch {
                        metadata: d.metadata,
                        data: Some(DispatchData { is_active: active, ..data }),
                    },
                    None => Dispatch { metadata: d.metadata, data: None },
                }
            };
        self.update_with(microgrid_id, dispatch_id, now, switch)
    }

    fn lookup(&self, microgrid_id: u64, dispatch_id: u64) -> (out: Option<&Dispatch>)
        ensures
            match self.record(microgrid_id, dispatch_id) {
                Some(d) => out == Some(&d),
                None => out is None,
            },
    {
        match self.inner.get(&microgrid_id) {
            Some(m) => m.get(&dispatch_id),
            None => None,
        }
    }

    /// Fetches one dispatch.
    pub fn get(&self, microgrid_id: u64, dispatch_id: u64) -> (out: Option<Dispatch>)
        ensures
            out == self.record(microgrid_id, dispatch_id),
    {
        match self.lookup(microgrid_id, dispatch_id) {
            Some(d) => Some(d.clone()),
            None => None,
        }
    }

    /// `ids` lists the dispatch ids of a microgrid, ascending.
    pub open spec fn lists_ids(self, mg: u64, ids: Seq<u64>) -> bool {
        &&& forall|i: int, j: int| 0 <= i < j < ids.len() ==> ids[i] < ids[j]
        &&& forall|id: u64| #[trigger] ids.contains(id) <==> self.record(mg, id) is Some
    }

    /// All dispatches of a microgrid, ascending by id.
    pub fn list_mg(&self, microgrid_id: u64) -> (out: Vec<Dispatch>)
        ensures
            exists|ids: Seq<u64>| #[trigger]
                self.lists_ids(microgrid_id, ids) && out@.len() == ids.len() && forall|i: int|
                    0 <= i < ids.len() ==> Some(#[trigger] out@[i]) == self.record(
                        microgrid_id,
                        ids[i],
                    ),
    {
        let mut out: Vec<Dispatch> = Vec::new();
        match self.inner.get(&microgrid_id) {
            None => {
                assert(self.lists_ids(microgrid_id, Seq::empty()));
            },
            Some(m) => {
                let ids = ascending_keys(m);
                let mut i: usize = 0;
                while i < ids.len()
                    invariant
                        i <= ids.len(),
                        out.len() == i,
                        self.inner@.contains_key(microgrid_id),
                        self.inner@[microgrid_id] == *m,
                        lists_keys(m@.dom(), ids@),
                        forall|k: int|
                            0 <= k < i ==> Some(#[trigger] out@[k]) == self.record(
                                microgrid_id,
                                ids@[k],
                            ),
                    decreases ids.len() - i,
                {
                    assert(ids@.contains(ids@[i as int]));
                    assert(m@.contains_key(ids@[i as int]));
                    if let Some(d) = m.get(&ids[i]) {
                        out.push(d.clone());
                    }
                    i = i + 1;
                }
                assert(self.lists_ids(microgrid_id, ids@)) by {
                    assert forall|id: u64| #[trigger] ids@.contains(id) <==> self.record(
                        microgrid_id,
                        id,
                    ) is Some by {
                        assert(m@.dom().contains(id) <==> ids@.contains(id));
                    }
                }
            },
        }
        out
    }

    /// Number of dispatches across all microgrids.
    pub fn total(&self) -> (out: u128)
        ensures
            self.places().finite(),
            out == self.places().len(),
    {
        let mgs = ascending_keys(&self.inner);
        let mut sum: u128 = 0;
        let mut i: usize = 0;
        assert(mgs@.subrange(0, 0) =~= Seq::<u64>::empty());
        while i < mgs.len()
            invariant
                i <= mgs.len(),
                lists_keys(self.inner@.dom(), mgs@),
                sum == sum_sizes(self.inner@, mgs@.subrange(0, i as int)),
                sum <= i * 0xffff_ffff_ffff_ffff,
            decreases mgs.len() - i,
        {
            assert(mgs@.contains(mgs@[i as int]));
            assert(self.inner@.contains_key(mgs@[i as int]));
            assert(mgs@.subrange(0, i + 1).drop_last() =~= mgs@.subrange(0, i as int));
            assert(i * 0xffff_ffff_ffff_ffff + 0xffff_ffff_ffff_ffff <= u128::MAX);
            if let Some(m) = self.inner.get(&mgs[i]) {
                sum = sum + m.len() as u128;
            }
            i = i + 1;
        }
        proof {
            assert(mgs@.subrange(0, mgs@.len() as int) =~= mgs@);
            held_is_counted(self.inner@, mgs@);
            assert(self.places() =~= held(self.inner@, mgs@.to_set()));
        }
        sum
    }
}

/// What it means to create a dispatch of `stored`: it gets the next id and
/// nothing else changes; without a start time nothing changes at all.
pub open spec fn creates(
    before: DispatchStore,
    after: DispatchStore,
    mg: u64,
    stored: DispatchData,
    now: Moment,
    out: Result<DispatchEvent, DispatchError>,
) -> bool {
    let id = before.next_id;
    let dispatch = created(stored, id, now);
    if stored.start_time is None {
        &&& out == Err::<DispatchEvent, _>(DispatchError::MissingStartTime)
        &&& after == before
    } else {
        &&& out == Ok::<_, DispatchError>(
            DispatchEvent { microgrid_id: mg, change: DispatchChange::Created, dispatch },
        )
        &&& after.next_id == id + 1
        &&& after.record(mg, id) == Some(dispatch)
        &&& after.same_elsewhere(before, mg, id)
    }
}

/// What it means to pause or resume a dispatch: it is switched and stamped,
/// and nothing else changes.
pub open spec fn switches(
    before: DispatchStore,
    after: DispatchStore,
    mg: u64,
    id: u64,
    active: bool,
    now: Moment,
    out: Result<DispatchEvent, DispatchError>,
) -> bool {
    match before.record(mg, id) {
        None => {
            &&& out == Err::<DispatchEvent, _>(DispatchError::NotFound)
            &&& after == before
        },
        Some(d) => {
            let dispatch = stamped(with_active(d, active), now);
            &&& out == Ok::<_, DispatchError>(
                DispatchEvent { microgrid_id: mg, change: DispatchChange::Updated, dispatch },
            )
            &&& after.record(mg, id) == Some(dispatch)
            &&& after.same_elsewhere(before, mg, id)
        },
    }
}

/// What it means to remove a dispatch: it is gone, the event carries it, and
/// nothing else changes.
pub open spec fn removes(
    before: DispatchStore,
    after: DispatchStore,
    mg: u64,
    id: u64,
    event: Option<DispatchEvent>,
) -> bool {
    &&& after.next_id == before.next_id
    &&& after.record(mg, id) is None
    &&& after.same_elsewhere(before, mg, id)
    &&& match before.record(mg, id) {
        None => event is None,
        Some(d) => event == Some(
            DispatchEvent { microgrid_id: mg, change: DispatchChange::Deleted, dispatch: d },
        ),
    }
}

/// `d` with its activity flag set; one without data stays as it is.
pub open spec fn with_active(d: Dispatch, active: bool) -> Dispatch {
    Dispatch {
        metadata: d.metadata,
        data: match d.data {
            Some(data) => Some(DispatchData { is_active: active, ..data }),
            None => None,
        },
    }
}

proof fn nonempty_len(s: Set<u64>, x: u64)
    requires
        s.finite(),
        s.contains(x),
    ensures
        s.len() > 0,
{
    if s.len() == 0 {
        assert(s =~= Set::empty());
    }
}

/// The places of the dispatches of the microgrids `mgs`.
spec fn held(inner: Map<u64, BTreeMap<u64, Dispatch>>, mgs: Set<u64>) -> Set<(u64, u64)> {
    Set::new(|k: (u64, u64)| mgs.contains(k.0) && inner[k.0]@.contains_key(k.1))
}

proof fn held_grows(inner: Map<u64, BTreeMap<u64, Dispatch>>, mgs: Set<u64>, mg: u64)
    requires
        !mgs.contains(mg),
        held(inner, mgs).finite(),
    ensures
        held(inner, mgs.insert(mg)).finite(),
        held(inner, mgs.insert(mg)).len() == held(inner, mgs).len() + inner[mg]@.len(),
{
    let ids = inner[mg]@.dom();
    let place = |id: u64| (mg, id);
    let more = Set::new(|k: (u64, u64)| k.0 == mg && ids.contains(k.1));
    assert(ids.map(place) =~= more) by {
        assert forall|k: (u64, u64)| more.contains(k) implies ids.map(place).contains(k) by {
            assert(place(k.1) == k);
        }
    }
    vstd::set_lib::lemma_map_size(ids, more, place);
    assert(held(inner, mgs.insert(mg)) =~= held(inner, mgs) + more);
    assert(held(inner, mgs).disjoint(more));
    vstd::set_lib::lemma_set_disjoint_lens(held(inner, mgs), more);
}

proof fn held_is_counted(inner: Map<u64, BTreeMap<u64, Dispatch>>, mgs: Seq<u64>)
    requires
        forall|i: int, j: int| 0 <= i < j < mgs.len() ==> mgs[i] < mgs[j],
    ensures
        held(inner, mgs.to_set()).finite(),
        held(inner, mgs.to_set()).len() == sum_sizes(inner, mgs),
    decreases mgs.len(),
{
    if mgs.len() == 0 {
        assert(held(inner, mgs.to_set()) =~= Set::empty());
    } else {
        let init = mgs.drop_last();
        held_is_counted(inner, init);
        assert(!init.contains(mgs.last()));
        assert forall|m: u64| mgs.contains(m) implies init.contains(m) || m == mgs.last() by {
            let i = choose|i: int| 0 <= i < mgs.len() && mgs[i] == m;
            if i < init.len() {
                assert(init[i] == m);
            }
        }
        assert forall|m: u64| init.contains(m) implies mgs.contains(m) by {
            let i = choose|i: int| 0 <= i < init.len() && init[i] == m;
            assert(mgs[i] == m);
        }
        assert(mgs.contains(mgs[mgs.len() - 1]));
        assert(mgs.to_set() =~= init.to_set().insert(mgs.last()));
        held_grows(inner, init.to_set(), mgs.last());
    }
}

proof fn held_is_finite(inner: Map<u64, BTreeMap<u64, Dispatch>>, mgs: Set<u64>)
    requires
        mgs.finite(),
    ensures
        held(inner, mgs).finite(),
    decreases mgs.len(),
{
    if mgs.len() == 0 {
        assert(held(inner, mgs) =~= Set::empty());
    } else {
        let mg = mgs.choose();
        held_is_finite(inner, mgs.remove(mg));
        held_grows(inner, mgs.remove(mg), mg);
        assert(mgs.remove(mg).insert(mg) =~= mgs);
    }
}

proof fn places_are_finite(store: DispatchStore)
    ensures
        store.places().finite(),
{
    held_is_finite(store.inner@, store.inner@.dom());
    assert(store.places() =~= held(store.inner@, store.inner@.dom()));
}

/// A created dispatch is one more, where its id was free; a refused one
/// leaves the count.
pub proof fn creating_counts_up(
    before: DispatchStore,
    after: DispatchStore,
    mg: u64,
    stored: DispatchData,
    now: Moment,
    out: Result<DispatchEvent, DispatchError>,
)
    requires
        before.record(mg, before.next_id) is None,
        creates(before, after, mg, stored, now, out),
    ensures
        after.places().finite(),
        after.places().len() == before.places().len() + (if out is Ok {
            1nat
        } else {
            0
        }),
{
    places_are_finite(before);
    places_are_finite(after);
    if out is Ok {
        let place = (mg, before.next_id);
        assert forall|k: (u64, u64)|
            after.places().contains(k) == before.places().insert(place).contains(k) by {
            if k != place {
                assert(after.record(k.0, k.1) == before.record(k.0, k.1));
            }
        }
        assert(after.places() =~= before.places().insert(place));
    }
}

/// A removed dispatch is one less; where there was none, the count stays.
pub proof fn removing_counts_down(
    before: DispatchStore,
    after: DispatchStore,
    mg: u64,
    id: u64,
    event: Option<DispatchEvent>,
)
    requires
        removes(before, after, mg, id, event),
    ensures
        after.places().finite(),
        before.places().len() == after.places().len() + (if event is Some {
            1nat
        } else {
            0
        }),
{
    places_are_finite(before);
    places_are_finite(after);
    let place = (mg, id);
    assert forall|k: (u64, u64)|
        after.places().contains(k) == before.places().remove(place).contains(k) by {
        if k != place {
            assert(after.record(k.0, k.1) == before.record(k.0, k.1));
        }
    }
    assert(after.places() =~= before.places().remove(place));
    assert(event is Some == before.places().contains(place));
}

/// Removing a created dispatch hands that dispatch back and leaves every other
/// record as it was before; its id is not handed out again.
pub proof fn removing_undoes_creating(
    before: DispatchStore,
    middle: DispatchStore,
    after: DispatchStore,
    mg: u64,
    stored: DispatchData,
    now: Moment,
    made: Result<DispatchEvent, DispatchError>,
    event: Option<DispatchEvent>,
)
    requires
        stored.start_time is Some,
        before.record(mg, before.next_id) is None,
        creates(before, middle, mg, stored, now, made),
        removes(middle, after, mg, before.next_id, event),
    ensures
        made is Ok,
        event is Some,
        event->0.dispatch == made->Ok_0.dispatch,
        forall|m: u64, id: u64| #[trigger] after.record(m, id) == before.record(m, id),
        after.next_id == before.next_id + 1,
{
    assert forall|m: u64, id: u64| #[trigger] after.record(m, id) == before.record(m, id) by {
        if (m, id) != (mg, before.next_id) {
            assert(after.record(m, id) == middle.record(m, id));
            assert(middle.record(m, id) == before.record(m, id));
        }
    }
}

/// Pausing and resuming: only the latest switch of a dispatch counts.
pub proof fn latest_switch_counts(
    before: DispatchStore,
    middle: DispatchStore,
    after: DispatchStore,
    mg: u64,
    id: u64,
    first: bool,
    second: bool,
    then: Moment,
    now: Moment,
    a: Result<DispatchEvent, DispatchError>,
    b: Result<DispatchEvent, DispatchError>,
)
    requires
        before.record(mg, id) is Some,
        switches(before, middle, mg, id, first, then, a),
        switches(middle, after, mg, id, second, now, b),
    ensures
        after.record(mg, id) is Some,
        ({
            let was = before.record(mg, id)->0;
            let is = after.record(mg, id)->0;
            is.data == with_active(was, second).data
        }),
        after.same_elsewhere(before, mg, id),
{
    assert forall|m: u64, d: u64| (m, d) != (mg, id) implies #[trigger] after.record(m, d)
        == before.record(m, d) by {
        assert(after.record(m, d) == middle.record(m, d));
        assert(middle.record(m, d) == before.record(m, d));
    }
}

/// Ids are handed out once: a store whose records all lie below the next id
/// keeps that property when a dispatch is created, and the new id was free.
pub proof fn created_id_is_fresh(
    before: DispatchStore,
    after: DispatchStore,
    mg: u64,
    stored: DispatchData,
    now: Moment,
    out: Result<DispatchEvent, DispatchError>,
)
    requires
        forall|m: u64, id: u64| #[trigger] before.record(m, id) is Some ==> id < before.next_id,
        creates(before, after, mg, stored, now, out),
    ensures
        forall|m: u64| #[trigger] before.record(m, before.next_id) is None,
        forall|m: u64, id: u64| #[trigger] after.record(m, id) is Some ==> id < after.next_id,
{
    assert forall|m: u64, id: u64| #[trigger] after.record(m, id) is Some implies id
        < after.next_id by {
        if stored.start_time is Some && (m, id) != (mg, before.next_id) {
            assert(after.record(m, id) == before.record(m, id));
        }
    }
}

/// A one-off with a start and a duration ends that many seconds after its
/// start; a dispatch that recurs, has no start or runs on has no end.
pub proof fn one_off_ends_after_its_duration(start: Timestamp, duration_s: u32)
    ensures
        end_time(Some(start), Some(duration_s), false) matches Some(end) ==> {
            &&& end.seconds == start.seconds + duration_s
            &&& 0 <= start.nanos < 1_000_000_000 ==> end.nanos == start.nanos
        },
        0 <= start.nanos < 1_000_000_000 && FIRST_SECOND <= start.seconds && start.seconds
            + duration_s <= LAST_SECOND ==> end_time(Some(start), Some(duration_s), false) is Some,
        start.seconds + duration_s > LAST_SECOND ==> end_time(
            Some(start),
            Some(duration_s),
            false,
        ) is None,
        end_time(Some(start), Some(duration_s), true) is None,
        end_time(Some(start), None, false) is None,
        end_time(None, Some(duration_s), false) is None,
{
}

/// A longer dispatch ends no earlier.
pub proof fn longer_dispatch_ends_later(start: Timestamp, short: u32, long: u32)
    requires
        short <= long,
    ensures
        end_time(Some(start), Some(long), false) matches Some(late) ==> (end_time(
            Some(start),
            Some(short),
            false,
        ) matches Some(early) && late.seconds - early.seconds == long - short),
{
}

/// A created dispatch holds what was asked for. It starts now where that was
/// asked, else when the caller said; only a dispatch without either is refused,
/// and then nothing changes.
pub proof fn creating_keeps_what_was_asked(
    before: DispatchStore,
    after: DispatchStore,
    mg: u64,
    data: DispatchData,
    start_immediately: bool,
    now: Moment,
    out: Result<DispatchEvent, DispatchError>,
)
    requires
        creates(before, after, mg, started(data, start_immediately, now), now, out),
        now.in_calendar(),
    ensures
        out is Err <==> !start_immediately && data.start_time is None,
        out matches Err(e) ==> e == DispatchError::MissingStartTime && after == before,
        out matches Ok(event) ==> {
            &&& event.microgrid_id == mg
            &&& event.change == DispatchChange::Created
            &&& after.record(mg, before.next_id) == Some(event.dispatch)
            &&& after.next_id == before.next_id + 1
            &&& event.dispatch.metadata matches Some(m) && {
                &&& m.dispatch_id == before.next_id
                &&& m.create_time == Some(timestamp_of(now))
                &&& m.update_time == m.create_time
                &&& m.create_time matches Some(t) && t.seconds * 1_000_000_000 + t.nanos
                    == now.nanos
                &&& m.end_time is Some ==> data.duration is Some && (data.recurrence matches Some(
                    r,
                ) ==> r.freq == 0)
            }
            &&& event.dispatch.data matches Some(d) && {
                &&& d.type_ == data.type_
                &&& d.duration == data.duration
                &&& d.target == data.target
                &&& d.is_active == data.is_active
                &&& d.is_dry_run == data.is_dry_run
                &&& d.payload == data.payload
                &&& d.recurrence == data.recurrence
                &&& !start_immediately ==> d.start_time == data.start_time
                &&& start_immediately ==> d.start_time == Some(timestamp_of(now))
            }
        },
{
}

/// The end that a created one-off carries lies its duration after the start
/// that it carries.
pub proof fn created_one_off_carries_its_end(
    before: DispatchStore,
    after: DispatchStore,
    mg: u64,
    stored: DispatchData,
    now: Moment,
    event: DispatchEvent,
)
    requires
        creates(before, after, mg, stored, now, Ok(event)),
        stored.recurrence matches Some(r) ==> r.freq == 0,
    ensures
        event.dispatch.metadata matches Some(m) && (m.end_time matches Some(end) ==> (
        stored.start_time matches Some(start) && stored.duration matches Some(d) && end.seconds
            == start.seconds + d)),
        stored.start_time matches Some(start) && stored.duration matches Some(d) && 0
            <= start.nanos < 1_000_000_000 && FIRST_SECOND <= start.seconds && start.seconds + d
            <= LAST_SECOND ==> (event.dispatch.metadata matches Some(m) && m.end_time is Some),
{
}

/// Pausing or resuming touches the activity flag and the update time only: the
/// dispatch keeps its id, when it was created and everything else that was
/// asked for, and every other dispatch stays as it is.
pub proof fn switching_touches_only_the_flag(
    before: DispatchStore,
    after: DispatchStore,
    mg: u64,
    id: u64,
    active: bool,
    now: Moment,
    out: Result<DispatchEvent, DispatchError>,
)
    requires
        switches(before, after, mg, id, active, now, out),
        now.in_calendar(),
    ensures
        out is Ok <==> before.record(mg, id) is Some,
        out matches Err(e) ==> e == DispatchError::NotFound && after == before,
        forall|m: u64, d: u64|
            (m, d) != (mg, id) ==> #[trigger] after.record(m, d) == before.record(m, d),
        before.record(mg, id) matches Some(was) ==> (after.record(mg, id) matches Some(is) && {
            &&& out matches Ok(event) && event.dispatch == is && event.microgrid_id == mg
                && event.change == DispatchChange::Updated
            &&& is.data is Some <==> was.data is Some
            &&& was.data matches Some(a) ==> (is.data matches Some(b) && {
                &&& b.is_active == active
                &&& b.type_ == a.type_
                &&& b.start_time == a.start_time
                &&& b.duration == a.duration
                &&& b.target == a.target
                &&& b.is_dry_run == a.is_dry_run
                &&& b.payload == a.payload
                &&& b.recurrence == a.recurrence
            })
            &&& was.metadata matches Some(a) ==> (is.metadata matches Some(b) && {
                &&& b.dispatch_id == a.dispatch_id
                &&& b.create_time == a.create_time
                &&& b.update_time matches Some(t) && t.seconds * 1_000_000_000 + t.nanos
                    == now.nanos
            })
        }),
{
}

/// Pausing and resuming leaves the end of a created dispatch where it was.
pub proof fn switching_keeps_the_end(data: DispatchData, id: u64, made: Moment, active: bool, now: Moment)
    ensures
        stamped(with_active(created(data, id, made), active), now).metadata->0.end_time == created(
            data,
            id,
            made,
        ).metadata->0.end_time,
{
}

/// Of two stamps the later call counts: the first leaves nothing behind.
pub proof fn latest_stamp_counts(d: Dispatch, first: Moment, second: Moment)
    ensures
        stamped(stamped(d, first), second) == stamped(d, second),
        stamped(d, second).data == d.data,
        d.metadata is None ==> stamped(d, second).metadata is None,
{
}

/// A removed dispatch is handed out as it stood, and is the only one to go.
pub proof fn removal_hands_out_what_stood(
    before: DispatchStore,
    after: DispatchStore,
    mg: u64,
    id: u64,
    event: Option<DispatchEvent>,
)
    requires
        removes(before, after, mg, id, event),
    ensures
        event is Some <==> before.record(mg, id) is Some,
        event matches Some(e) ==> before.record(mg, id) == Some(e.dispatch) && e.change
            == DispatchChange::Deleted && e.microgrid_id == mg,
        after.record(mg, id) is None,
        forall|m: u64, d: u64|
            (m, d) != (mg, id) ==> #[trigger] after.record(m, d) == before.record(m, d),
        after.next_id == before.next_id,
{
}

/// A listing is complete, ascends and names no dispatch twice.
pub proof fn listing_is_complete(store: DispatchStore, mg: u64, ids: Seq<u64>, id: u64)
    requires
        store.lists_ids(mg, ids),
    ensures
        store.record(mg, id) is Some <==> exists|i: int| 0 <= i < ids.len() && ids[i] == id,
        forall|i: int, j: int| 0 <= i < j < ids.len() ==> ids[i] < ids[j],
{
    if store.record(mg, id) is Some {
        assert(ids.contains(id));
    }
    if exists|i: int| 0 <= i < ids.len() && ids[i] == id {
        assert(ids.contains(id));
    }
}

} // verus!
