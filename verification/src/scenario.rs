//! Scenario lifecycle and event journal.

use crate::history::{ring_push, Metric};
use crate::order::filtering_keeps_what_passes;
use crate::scalar::{zero, Scalar};
use crate::time::{Moment, Span};
use std::collections::VecDeque;
use vstd::prelude::*;

verus! {

/// Cap on the event ring; the oldest entries age out beyond it.
pub const SCENARIO_EVENT_CAPACITY: usize = 4096;

/// One entry of the journal. Its id is stable: ids do not restart with a
/// scenario.
#[derive(Debug)]
pub struct ScenarioEvent {
    pub id: u64,
    pub ts: Moment,
    pub kind: String,
    pub payload: String,
}

impl Clone for ScenarioEvent {
    fn clone(&self) -> (out: Self)
        ensures
            out == *self,
    {
        ScenarioEvent {
            id: self.id,
            ts: self.ts,
            kind: self.kind.clone(),
            payload: self.payload.clone(),
        }
    }
}

/// Name, lifecycle, event ring and the peak of the main meter.
#[derive(Debug)]
pub struct ScenarioJournal {
    pub name: Option<String>,
    pub started_at: Option<Moment>,
    pub ended_at: Option<Moment>,
    pub events: VecDeque<ScenarioEvent>,
    pub next_id: u64,
    /// Highest active power seen on the main meter while running; zero where
    /// none was positive.
    pub peak_main_meter_active_w: Scalar,
}

/// The events with an id of at least `from_id`, the first `limit` of them.
pub open spec fn events_from(events: Seq<ScenarioEvent>, from_id: u64, limit: nat) -> Seq<
    ScenarioEvent,
> {
    let all = events.filter(|e: ScenarioEvent| e.id >= from_id);
    if all.len() <= limit {
        all
    } else {
        all.take(limit as int)
    }
}

/// The journal once its scenario was stopped at `now`; an earlier end stays.
pub open spec fn stopped(journal: ScenarioJournal, now: Moment) -> ScenarioJournal {
    ScenarioJournal {
        ended_at: match journal.ended_at {
            Some(t) => Some(t),
            None => Some(now),
        },
        ..journal
    }
}

impl ScenarioJournal {
    /// The ring is bounded, its ids are consecutive and end just below the
    /// next one, and every recorded instant lies in the calendar.
    pub open spec fn wf(self) -> bool {
        &&& self.events@.len() <= SCENARIO_EVENT_CAPACITY
        &&& self.events@.len() <= self.next_id
        &&& forall|i: int|
            0 <= i < self.events@.len() ==> (#[trigger] self.events@[i]).id == self.next_id
                - self.events@.len() + i
        &&& self.started_at matches Some(t) ==> t.in_calendar()
        &&& self.ended_at matches Some(t) ==> t.in_calendar()
    }

    /// Started and not stopped.
    pub open spec fn is_running(self) -> bool {
        self.started_at is Some && self.ended_at is None
    }

    /// No scenario has been started or journaled.
    pub open spec fn is_fresh(self) -> bool {
        &&& self.name is None
        &&& self.started_at is None
        &&& self.ended_at is None
        &&& self.events@.len() == 0
        &&& self.next_id == 0
        &&& self.peak_main_meter_active_w == zero()
    }

    /// Begins a fresh scenario. Event ids continue.
    pub fn start(&mut self, name: String, now: Moment)
        requires
            old(self).wf(),
            now.in_calendar(),
        ensures
            final(self).wf(),
            final(self).name == Some(name),
            final(self).started_at == Some(now),
            final(self).ended_at is None,
            final(self).events@ == Seq::<ScenarioEvent>::empty(),
            final(self).next_id == old(self).next_id,
            final(self).peak_main_meter_active_w == zero(),
    {
        self.name = Some(name);
        self.started_at = Some(now);
        self.ended_at = None;
        self.events.clear();
        self.peak_main_meter_active_w = zero();
    }

    /// The peak after a sample: the main meter's active power raises it while
    /// the scenario runs, anything else leaves it.
    pub open spec fn peak_after(
        self,
        id: u64,
        metric: Metric,
        value: Scalar,
        main_meter_id: Option<u64>,
    ) -> Scalar {
        if self.is_running() && main_meter_id == Some(id) && metric == Metric::ActivePowerW
            && self.peak_main_meter_active_w.spec_below(value) {
            value
        } else {
            self.peak_main_meter_active_w
        }
    }

    /// Hands a recorded sample to the reporter.
    pub fn record_sample(
        &mut self,
        id: u64,
        metric: Metric,
        value: Scalar,
        main_meter_id: Option<u64>,
    )
        ensures
            *final(self) == (ScenarioJournal {
                peak_main_meter_active_w: old(self).peak_after(id, metric, value, main_meter_id),
                ..*old(self)
            }),
    {
        if self.started_at.is_none() || self.ended_at.is_some() {
            return;
        }
        if let Some(main) = main_meter_id {
            if main == id && metric == Metric::ActivePowerW && self.peak_main_meter_active_w.below(
                value,
            ) {
                self.peak_main_meter_active_w = value;
            }
        }
    }

    pub fn peak_main_meter_active_w(&self) -> (out: Scalar)
        ensures
            out == self.peak_main_meter_active_w,
    {
        self.peak_main_meter_active_w
    }

    /// Marks the scenario as ended; the first stop wins.
    pub fn stop(&mut self, now: Moment)
        requires
            old(self).wf(),
            now.in_calendar(),
        ensures
            final(self).wf(),
            *final(self) == stopped(*old(self), now),
    {
        if self.ended_at.is_none() {
            self.ended_at = Some(now);
        }
    }

    /// Appends an event and returns its id; the oldest event makes room when
    /// the ring is full.
    pub fn record(&mut self, kind: String, payload: String, ts: Moment) -> (id: u64)
        requires
            old(self).wf(),
            old(self).next_id < u64::MAX,
        ensures
            final(self).wf(),
            id == old(self).next_id,
            final(self).next_id == id + 1,
            final(self).events@ == ring_push(
                old(self).events@,
                SCENARIO_EVENT_CAPACITY as nat,
                ScenarioEvent { id, ts, kind, payload },
            ),
            final(self).name == old(self).name,
            final(self).started_at == old(self).started_at,
            final(self).ended_at == old(self).ended_at,
            final(self).peak_main_meter_active_w == old(self).peak_main_meter_active_w,
    {
        let id: u64 = self.next_id;
        let ghost before = self.events@;
        self.next_id = self.next_id + 1;
        if self.events.len() >= SCENARIO_EVENT_CAPACITY {
            let _ = self.events.pop_front();
            assert(self.events@ =~= before.drop_first());
        }
        let ghost kept = self.events@;
        self.events.push_back(ScenarioEvent { id, ts, kind, payload });
        assert forall|i: int| 0 <= i < self.events@.len() implies (
        #[trigger] self.events@[i]).id == self.next_id - self.events@.len() + i by {
            if i < kept.len() {
                assert(self.events@[i] == kept[i]);
                if before.len() >= SCENARIO_EVENT_CAPACITY {
                    assert(kept[i] == before[i + 1]);
                } else {
                    assert(kept[i] == before[i]);
                }
            }
        }
        id
    }

    /// How long the scenario has run at `now`: none before it started, and
    /// frozen once it ended.
    pub open spec fn spec_elapsed(self, now: Moment) -> int {
        match self.started_at {
            None => 0,
            Some(start) => {
                let end = match self.ended_at {
                    Some(t) => t,
                    None => now,
                };
                if end.nanos < start.nanos {
                    0
                } else {
                    end.nanos - start.nanos
                }
            },
        }
    }

    pub fn elapsed(&self, now: Moment) -> (out: Span)
        requires
            self.wf(),
            now.in_calendar(),
        ensures
            out.nanos == self.spec_elapsed(now),
    {
        match self.started_at {
            None => Span { nanos: 0 },
            Some(start) => {
                let end = match self.ended_at {
                    Some(t) => t,
                    None => now,
                };
                if end.nanos < start.nanos {
                    Span { nanos: 0 }
                } else {
                    Span { nanos: (end.nanos - start.nanos) as u128 }
                }
            },
        }
    }

    /// The events with an id of at least `from_id`, oldest first, at most
    /// `limit` of them.
    pub fn events_since(&self, from_id: u64, limit: usize) -> (out: Vec<ScenarioEvent>)
        ensures
            out@ == events_from(self.events@, from_id, limit as nat),
    {
        let mut out: Vec<ScenarioEvent> = Vec::new();
        let mut i: usize = 0;
        let ghost wanted = |e: ScenarioEvent| e.id >= from_id;
        let ghost mut seen: Seq<ScenarioEvent> = Seq::empty();
        proof {
            reveal(Seq::filter);
            assert(self.events@.subrange(0, 0) =~= Seq::<ScenarioEvent>::empty());
            assert(self.events@.subrange(0, 0).filter(wanted) =~= seen);
        }
        while i < self.events.len()
            invariant
                i <= self.events@.len(),
                wanted == (|e: ScenarioEvent| e.id >= from_id),
                seen == self.events@.subrange(0, i as int).filter(wanted),
                out@ == (if seen.len() <= limit {
                    seen
                } else {
                    seen.take(limit as int)
                }),
            decreases self.events@.len() - i,
        {
            proof {
                reveal(Seq::filter);
                let next = self.events@.subrange(0, i + 1);
                assert(next.drop_last() =~= self.events@.subrange(0, i as int));
            }
            let ghost prior = seen;
            if self.events[i].id >= from_id {
                proof {
                    seen = seen.push(self.events@[i as int]);
                }
                if out.len() < limit {
                    out.push(self.events[i].clone());
                    assert(out@ =~= seen);
                } else {
                    assert(seen.take(limit as int) =~= out@);
                }
            }
            i = i + 1;
        }
        assert(self.events@.subrange(0, self.events@.len() as int) =~= self.events@);
        out
    }

    pub fn event_count(&self) -> (out: usize)
        ensures
            out == self.events@.len(),
    {
        self.events.len()
    }

    pub fn next_event_id(&self) -> (out: u64)
        ensures
            out == self.next_id,
    {
        self.next_id
    }

    /// The lowest id still in the ring; the next id where it is empty.
    pub fn earliest_event_id(&self) -> (out: u64)
        requires
            self.wf(),
        ensures
            out == self.next_id - self.events@.len(),
            self.events@.len() > 0 ==> out == self.events@[0].id,
    {
        self.next_id - self.events.len() as u64
    }
}

impl Default for ScenarioJournal {
    fn default() -> (out: Self)
        ensures
            out.wf(),
            out.is_fresh(),
    {
        ScenarioJournal {
            name: None,
            started_at: None,
            ended_at: None,
            events: VecDeque::new(),
            next_id: 0,
            peak_main_meter_active_w: zero(),
        }
    }
}

/// A client that polls from the next id sees exactly what is recorded after:
/// nothing before the next event, and that event alone behind it.
pub proof fn cursor_sees_only_new_events(journal: ScenarioJournal, event: ScenarioEvent, limit: nat)
    requires
        journal.wf(),
        event.id == journal.next_id,
        limit > 0,
    ensures
        events_from(journal.events@, journal.next_id, limit) == Seq::<ScenarioEvent>::empty(),
        events_from(
            ring_push(journal.events@, SCENARIO_EVENT_CAPACITY as nat, event),
            journal.next_id,
            limit,
        ) == seq![event],
{
    let cursor = journal.next_id;
    let wanted = |e: ScenarioEvent| e.id >= cursor;
    none_wanted(journal.events@, cursor);
    let kept = if journal.events@.len() == SCENARIO_EVENT_CAPACITY {
        journal.events@.drop_first()
    } else {
        journal.events@
    };
    assert forall|i: int| 0 <= i < kept.len() implies (#[trigger] kept[i]).id < cursor by {
        if journal.events@.len() == SCENARIO_EVENT_CAPACITY {
            assert(kept[i] == journal.events@[i + 1]);
        } else {
            assert(kept[i] == journal.events@[i]);
        }
    }
    none_wanted(kept, cursor);
    let grown = kept.push(event);
    assert(grown == ring_push(journal.events@, SCENARIO_EVENT_CAPACITY as nat, event));
    reveal(Seq::filter);
    assert(grown.drop_last() =~= kept);
    assert(grown.filter(wanted) =~= seq![event]);
}

proof fn none_wanted(events: Seq<ScenarioEvent>, cursor: u64)
    requires
        forall|i: int| 0 <= i < events.len() ==> (#[trigger] events[i]).id < cursor,
    ensures
        events.filter(|e: ScenarioEvent| e.id >= cursor) == Seq::<ScenarioEvent>::empty(),
    decreases events.len(),
{
    reveal(Seq::filter);
    let wanted = |e: ScenarioEvent| e.id >= cursor;
    if events.len() > 0 {
        let init = events.drop_last();
        assert forall|i: int| 0 <= i < init.len() implies (#[trigger] init[i]).id < cursor by {
            assert(init[i] == events[i]);
        }
        none_wanted(init, cursor);
        assert(events[events.len() - 1].id < cursor);
    }
    assert(events.filter(wanted) =~= Seq::<ScenarioEvent>::empty());
}

/// The first stop wins: stopping again changes nothing.
pub proof fn first_stop_wins(journal: ScenarioJournal, first: Moment, second: Moment)
    ensures
        stopped(stopped(journal, first), second) == stopped(journal, first),
        stopped(journal, first).ended_at is Some,
{
}

/// Once a scenario has ended, how long it ran no longer depends on the time
/// of asking.
pub proof fn elapsed_freezes(journal: ScenarioJournal, a: Moment, b: Moment)
    requires
        journal.ended_at is Some,
    ensures
        journal.spec_elapsed(a) == journal.spec_elapsed(b),
{
}

/// The recorded peak never falls while a scenario runs.
pub proof fn peak_never_falls(
    journal: ScenarioJournal,
    id: u64,
    metric: Metric,
    value: Scalar,
    main_meter_id: Option<u64>,
)
    ensures
        !journal.peak_after(id, metric, value, main_meter_id).spec_below(
            journal.peak_main_meter_active_w,
        ),
{
}

/// While a scenario runs, the peak is at least every active power that the main
/// meter has shown: a sample leaves a peak that is no lower than the sample and
/// no lower than before, and that is one of the two. Nothing else moves it.
pub proof fn peak_is_the_highest_sample(
    journal: ScenarioJournal,
    id: u64,
    metric: Metric,
    value: Scalar,
    main_meter_id: Option<u64>,
)
    requires
        !journal.peak_main_meter_active_w.spec_is_nan(),
    ensures
        ({
            let before = journal.peak_main_meter_active_w;
            let after = journal.peak_after(id, metric, value, main_meter_id);
            let counts = journal.started_at is Some && journal.ended_at is None && main_meter_id
                == Some(id) && metric == Metric::ActivePowerW;
            &&& counts && !value.spec_is_nan() ==> value.spec_at_most(after)
            &&& before.spec_at_most(after)
            &&& after == before || after == value
            &&& !counts ==> after == before
            &&& counts && before.spec_below(value) ==> after == value
            &&& !before.spec_below(value) ==> after == before
        }),
{
}

/// Two samples in either order leave a peak of the same rank.
pub proof fn peak_ignores_the_order_of_samples(
    journal: ScenarioJournal,
    id: u64,
    a: Scalar,
    b: Scalar,
    main_meter_id: Option<u64>,
)
    requires
        !journal.peak_main_meter_active_w.spec_is_nan(),
        !a.spec_is_nan(),
        !b.spec_is_nan(),
    ensures
        ({
            let first = ScenarioJournal {
                peak_main_meter_active_w: journal.peak_after(
                    id,
                    Metric::ActivePowerW,
                    a,
                    main_meter_id,
                ),
                ..journal
            };
            let other = ScenarioJournal {
                peak_main_meter_active_w: journal.peak_after(
                    id,
                    Metric::ActivePowerW,
                    b,
                    main_meter_id,
                ),
                ..journal
            };
            first.peak_after(id, Metric::ActivePowerW, b, main_meter_id).spec_rank()
                == other.peak_after(id, Metric::ActivePowerW, a, main_meter_id).spec_rank()
        }),
{
}

/// A running scenario ages with the clock, from nothing at its start; a stopped
/// one is as old as it was when it was stopped.
pub proof fn elapsed_counts_from_the_start(
    journal: ScenarioJournal,
    start: Moment,
    now: Moment,
    later: Moment,
)
    requires
        journal.started_at == Some(start),
        journal.ended_at is None,
        start.nanos <= now.nanos <= later.nanos,
    ensures
        journal.spec_elapsed(start) == 0,
        journal.spec_elapsed(now) == now.nanos - start.nanos,
        journal.spec_elapsed(later) - journal.spec_elapsed(now) == later.nanos - now.nanos,
        stopped(journal, now).spec_elapsed(later) == now.nanos - start.nanos,
        stopped(journal, now).ended_at == Some(now),
        stopped(journal, now).started_at == journal.started_at,
        stopped(journal, now).events == journal.events,
        stopped(journal, now).peak_main_meter_active_w == journal.peak_main_meter_active_w,
{
}

/// Before it is started a scenario has no age, and no clock runs it backward.
pub proof fn elapsed_is_never_negative(journal: ScenarioJournal, now: Moment)
    ensures
        journal.started_at is None ==> journal.spec_elapsed(now) == 0,
        journal.spec_elapsed(now) >= 0,
{
}

/// A page of events holds only events of the journal with an id from the
/// cursor on, and no more than asked for; where fewer come back, none is
/// missing.
pub proof fn page_holds_what_the_cursor_asks(
    events: Seq<ScenarioEvent>,
    from_id: u64,
    limit: nat,
    e: ScenarioEvent,
)
    ensures
        events_from(events, from_id, limit).len() <= limit,
        events_from(events, from_id, limit).contains(e) ==> events.contains(e) && e.id >= from_id,
        events_from(events, from_id, limit).len() < limit && events.contains(e) && e.id >= from_id
            ==> events_from(events, from_id, limit).contains(e),
{
    let wanted = |x: ScenarioEvent| x.id >= from_id;
    let all = events.filter(wanted);
    let page = events_from(events, from_id, limit);
    filtering_keeps_what_passes(events, wanted, e);
    if page.contains(e) {
        let k = choose|k: int| 0 <= k < page.len() && page[k] == e;
        assert(all[k] == e);
    }
}

/// A shorter page is the beginning of a longer one, and one that is long enough
/// holds every event from the cursor on, in order.
pub proof fn pages_begin_at_the_cursor(
    events: Seq<ScenarioEvent>,
    from_id: u64,
    short: nat,
    long: nat,
)
    requires
        short <= long,
    ensures
        ({
            let head = events_from(events, from_id, short);
            let page = events_from(events, from_id, long);
            &&& head.len() <= page.len()
            &&& head == page.take(head.len() as int)
            &&& page.len() > short ==> head.len() == short
        }),
        events_from(events, from_id, events.len()) == events.filter(
            |e: ScenarioEvent| e.id >= from_id,
        ),
{
    let wanted = |e: ScenarioEvent| e.id >= from_id;
    let all = events.filter(wanted);
    if events.len() > 0 {
        filtering_keeps_what_passes(events, wanted, events[0]);
    } else {
        reveal(Seq::filter);
    }
    let head = events_from(events, from_id, short);
    let page = events_from(events, from_id, long);
    assert(head =~= page.take(head.len() as int));
}

} // verus!
