//! What clients read of a site's records.

use crate::answers::{Refusal, BAD_REQUEST};
use crate::history::{
    all_dated, is_cut, is_sample_window, metric_names_are_distinct, time_ordered,
    window_holds_the_recent_samples, Metric, Sample,
};
use crate::scalar::Scalar;
use crate::scenario::{events_from, ScenarioEvent};
use crate::setpoints::{is_event_cut, is_event_window, SetpointEvent};
use crate::site::MicrogridSite;
use crate::time::{in_calendar, Moment};
use vstd::prelude::*;

verus! {

/// The window of a history that is read where a query names none, in seconds.
pub const DEFAULT_WINDOW_S: i64 = 600;

/// How many scenario events are read where a query names no limit.
pub const DEFAULT_EVENT_LIMIT: usize = 200;

/// The most scenario events that one query reads.
pub const MAX_EVENT_LIMIT: usize = 1000;

/// The instant at which a window that ends at `now` begins.
pub open spec fn window_start(now: Moment, window_s: Option<i64>) -> int {
    now.nanos - (match window_s {
        Some(s) => s,
        None => DEFAULT_WINDOW_S,
    }) * 1_000_000_000
}

fn since(now: Moment, window_s: Option<i64>) -> (out: Moment)
    requires
        now.in_calendar(),
        in_calendar(window_start(now, window_s)),
    ensures
        out.nanos == window_start(now, window_s),
{
    let s: i64 = match window_s {
        Some(s) => s,
        None => DEFAULT_WINDOW_S,
    };
    Moment { nanos: now.nanos - s as i128 * 1_000_000_000 }
}

/// A window of one metric of one component.
#[derive(Debug)]
pub struct HistoryResponse {
    pub id: u64,
    pub metric: String,
    pub quantity: &'static str,
    pub unit: &'static str,
    /// Milliseconds since the epoch, and the value then.
    pub samples: Vec<(i64, Scalar)>,
}

/// A sample as it is charted.
pub open spec fn charted_point(s: Sample) -> (i64, Scalar) {
    ((s.ts.nanos as int / 1_000_000) as i64, s.value)
}

/// `points` charts the part of `ring` from `since` on.
pub open spec fn charts_window(
    ring: Seq<Sample>,
    since: Moment,
    points: Seq<(i64, Scalar)>,
) -> bool {
    exists|window: Seq<Sample>| #[trigger]
        is_sample_window(ring, since, window) && points == window.map_values(
            |s: Sample| charted_point(s),
        )
}

fn chart(window: &Vec<Sample>) -> (out: Vec<(i64, Scalar)>)
    requires
        all_dated(window@),
    ensures
        out@ == window@.map_values(|s: Sample| charted_point(s)),
{
    let mut out: Vec<(i64, Scalar)> = Vec::new();
    let mut i: usize = 0;
    while i < window.len()
        invariant
            i <= window.len(),
            all_dated(window@),
            out@ == window@.take(i as int).map_values(|s: Sample| charted_point(s)),
        decreases window.len() - i,
    {
        let s = window[i];
        out.push((s.ts.millis(), s.value));
        i = i + 1;
        assert(out@ =~= window@.take(i as int).map_values(|s: Sample| charted_point(s)));
    }
    assert(window@.take(window.len() as int) =~= window@);
    out
}

/// Reads a window of one metric of one component. A metric that was never
/// recorded, or a component that is not registered, has no samples; a metric
/// that does not exist is refused.
pub fn history_body(
    site: &MicrogridSite,
    id: u64,
    metric: String,
    window_s: Option<i64>,
    now: Moment,
) -> (out: Result<HistoryResponse, Refusal>)
    requires
        site.registry.wf(),
        now.in_calendar(),
        in_calendar(window_start(now, window_s)),
    ensures
        forall|m: Metric|
            #[trigger] m.spec_name() == metric@ ==> (out matches Ok(r) && r.id == id && r.metric
                == metric && r.quantity@ == m.spec_quantity() && r.unit@ == m.spec_unit()
                && charts_window(
                site.registry.ring(id, m),
                Moment { nanos: window_start(now, window_s) as i128 },
                r.samples@,
            )),
        (forall|m: Metric| #[trigger] m.spec_name() != metric@) ==> (out matches Err(r) && r.says(
            BAD_REQUEST,
            "unknown metric '"@ + metric@ + "'"@,
        )),
{
    let m = match Metric::parse(metric.as_str()) {
        Some(m) => m,
        None => {
            let mut message = String::from_str("unknown metric '");
            message.append(metric.as_str());
            message.append("'");
            return Err(Refusal { status: BAD_REQUEST, message });
        },
    };
    let from = since(now, window_s);
    let window = match site.history_window(id, m, from) {
        Some(w) => w,
        None => Vec::new(),
    };
    let ghost ring = site.registry.ring(id, m);
    proof {
        if site.registry.has_ring(id, m) {
            assert(site.registry.histories@[id].wf());
            assert(all_dated(ring));
        } else {
            assert(ring.skip(0) =~= window@);
            assert(is_cut(ring, from, 0));
        }
        assert(is_sample_window(ring, from, window@));
        let cut = choose|cut: int| 0 <= cut <= ring.len() && window@ == #[trigger] ring.skip(cut);
        assert forall|i: int| 0 <= i < window@.len() implies (#[trigger] window@[i]).ts.in_calendar()
            by {
            assert(window@[i] == ring[cut + i]);
        }
        assert forall|other: Metric| #[trigger] other.spec_name() == metric@ implies other == m by {
            metric_names_are_distinct(other, m);
        }
    }
    let samples = chart(&window);
    Ok(HistoryResponse { id, metric, quantity: m.quantity(), unit: m.unit(), samples })
}

/// The recent setpoint events of one component.
#[derive(Debug)]
pub struct SetpointsResponse {
    pub id: u64,
    pub events: Vec<SetpointEvent>,
}

/// Reads a window of the setpoint events of one component; all that are kept
/// where the query names no window.
pub fn setpoints(site: &MicrogridSite, id: u64, window_s: Option<i64>, now: Moment) -> (out:
    SetpointsResponse)
    requires
        now.in_calendar(),
        window_s is Some ==> in_calendar(window_start(now, window_s)),
    ensures
        out.id == id,
        window_s is None ==> out.events@ == site.registry.setpoints(id),
        window_s is Some ==> is_event_window(
            site.registry.setpoints(id),
            Moment { nanos: window_start(now, window_s) as i128 },
            out.events@,
        ),
{
    if window_s.is_none() {
        let events = match site.registry.setpoint_logs.get(&id) {
            Some(log) => log.iter(),
            None => Vec::new(),
        };
        assert(events@ =~= site.registry.setpoints(id));
        return SetpointsResponse { id, events };
    }
    let from = since(now, window_s);
    let events = site.setpoints_window(id, from);
    proof {
        let ring = site.registry.setpoints(id);
        if !site.registry.setpoint_logs@.contains_key(id) {
            assert(ring.skip(0) =~= events@);
            assert(is_event_cut(ring, from, 0));
        }
    }
    SetpointsResponse { id, events }
}

/// A page of scenario events.
#[derive(Debug)]
pub struct ScenarioEventsResponse {
    pub events: Vec<ScenarioEvent>,
    /// Where the next page begins.
    pub next_event_id: u64,
    /// The oldest event still kept; a reader whose place lies before it has
    /// missed some.
    pub earliest_event_id: u64,
}

/// How many events a query reads.
pub open spec fn page_limit(limit: Option<usize>) -> usize {
    match limit {
        Some(n) => if n > MAX_EVENT_LIMIT {
            MAX_EVENT_LIMIT
        } else {
            n
        },
        None => DEFAULT_EVENT_LIMIT,
    }
}

/// Reads the scenario events from `since` on, all of them by default.
pub fn scenario_events(
    site: &MicrogridSite,
    since: Option<u64>,
    limit: Option<usize>,
    now: Moment,
) -> (out: ScenarioEventsResponse)
    requires
        site.registry.wf(),
        now.in_calendar(),
    ensures
        out.events@ == events_from(
            site.registry.scenario.events@,
            (match since {
                Some(s) => s,
                None => 0,
            }),
            page_limit(limit) as nat,
        ),
        out.next_event_id == site.registry.scenario.next_id,
        out.earliest_event_id == site.registry.scenario.next_id
            - site.registry.scenario.events@.len(),
{
    let from: u64 = match since {
        Some(s) => s,
        None => 0,
    };
    let cap: usize = match limit {
        Some(n) => if n > MAX_EVENT_LIMIT {
            MAX_EVENT_LIMIT
        } else {
            n
        },
        None => DEFAULT_EVENT_LIMIT,
    };
    let events = site.scenario_events_since(from, cap);
    let summary = site.scenario_summary(now);
    ScenarioEventsResponse {
        events,
        next_event_id: summary.next_event_id,
        earliest_event_id: summary.earliest_event_id,
    }
}

/// A window reaches back from `now` by its length in seconds; where a query
/// names none, by ten minutes.
pub proof fn window_reaches_back_by_its_length(now: Moment, a: i64, b: i64)
    ensures
        window_start(now, Some(a)) + a * 1_000_000_000 == now.nanos,
        a <= b ==> window_start(now, Some(b)) <= window_start(now, Some(a)),
        window_start(now, None) == window_start(now, Some(600)),
{
}

/// A query reads as many events as it asks for, but never more than a thousand,
/// and two hundred where it does not say.
pub proof fn page_is_as_long_as_asked(n: usize)
    ensures
        n <= 1000 ==> page_limit(Some(n)) == n,
        n > 1000 ==> page_limit(Some(n)) == 1000,
        page_limit(None) == page_limit(Some(200)),
{
}

/// The points of a window are the recent samples of the ring, oldest first: each
/// value at the whole millisecond of its instant, none from before the window
/// and none left out.
pub proof fn points_are_the_recent_samples(
    ring: Seq<Sample>,
    since: Moment,
    points: Seq<(i64, Scalar)>,
)
    requires
        time_ordered(ring),
        all_dated(ring),
        charts_window(ring, since, points),
    ensures
        points.len() <= ring.len(),
        forall|i: int|
            0 <= i < points.len() ==> {
                let s = ring[ring.len() - points.len() + i];
                &&& (#[trigger] points[i]).1 == s.value
                &&& points[i].0 * 1_000_000 <= s.ts.nanos < (points[i].0 + 1) * 1_000_000
                &&& s.ts.nanos >= since.nanos
            },
        forall|i: int|
            0 <= i < ring.len() - points.len() ==> (#[trigger] ring[i]).ts.nanos < since.nanos,
{
    let window = choose|window: Seq<Sample>| #[trigger]
        is_sample_window(ring, since, window) && points == window.map_values(
            |s: Sample| charted_point(s),
        );
    window_holds_the_recent_samples(ring, since, window);
    assert forall|i: int| 0 <= i < points.len() implies {
        let s = ring[ring.len() - points.len() + i];
        &&& (#[trigger] points[i]).1 == s.value
        &&& points[i].0 * 1_000_000 <= s.ts.nanos < (points[i].0 + 1) * 1_000_000
        &&& s.ts.nanos >= since.nanos
    } by {
        let s = window[i];
        assert(s == ring[ring.len() - window.len() + i]);
        assert(s.ts.in_calendar());
    }
}

} // verus!
