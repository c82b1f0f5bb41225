use switchyard::bounds::Bounds;
use switchyard::dispatch::{Dispatch, DispatchChange, DispatchEvent, DispatchMetadata};
use switchyard::events::SiteEvent;
use switchyard::microgrids::{MicrogridDef, MicrogridEntry, Microgrids};
use switchyard::scalar::Scalar;
use switchyard::streams::{
    new_microgrid_slot, outer_bound, supervise, Notice, Stream, Supervision, MICROGRID_HISTORY_CAP,
};
use switchyard::subscriptions::{Subscriptions, WireEvent};
use switchyard::tui_log::LogBuffer as TerminalLog;
use switchyard::ui_log::{LogBuffer, LogEvent};

fn s(v: f32) -> Scalar {
    Scalar::from_bits(v.to_bits())
}

fn line(ts_ms: i64, message: &str) -> LogEvent {
    LogEvent {
        ts_ms,
        level: "info".into(),
        target: "t".into(),
        message: message.into(),
    }
}

fn entry(id: u64) -> MicrogridEntry<()> {
    MicrogridEntry {
        def: MicrogridDef {
            id,
            name: format!("mg-{id}"),
            grpc_port: 8800,
            tso: None,
        },
        site: (),
    }
}

#[test]
fn ring_evicts_oldest() {
    let mut b = LogBuffer::new(2);
    for i in 0..3 {
        b.push(line(i, &format!("{i}")));
    }
    let snap = b.snapshot();
    assert_eq!(snap.len(), 2);
    assert_eq!(snap[0].message, "1");
    assert_eq!(snap[1].message, "2");
}

#[test]
fn terminal_lines_are_bounded_too() {
    let mut b = TerminalLog::new(2);
    for i in 0..5 {
        b.push(format!("{i}"));
    }
    assert_eq!(b.lines(), vec!["3", "4"]);
}

#[test]
fn publishing_caches_appends_and_announces() {
    let mut slot = new_microgrid_slot();
    match slot.publish_scalar(Stream::PvPower, "Power", "W", Some(s(-5.0)), 17) {
        SiteEvent::MicrogridSample { stream, quantity, unit, ts_ms, value } => {
            assert_eq!((stream, quantity, unit), ("pv_power", "Power", "W"));
            assert_eq!((ts_ms, value), (17, Some(s(-5.0))));
        }
        other => panic!("unexpected event: {other:?}"),
    }
    slot.publish_scalar(Stream::PvPower, "Power", "W", None, 18);
    slot.publish_scalar(Stream::GridPower, "Power", "W", Some(s(1.0)), 18);
    let latest = slot.latest_samples();
    assert_eq!(latest.len(), 2);
    assert_eq!((latest[0].0.name(), latest[0].1.value), ("grid_power", Some(s(1.0))));
    assert_eq!((latest[1].0, latest[1].1.ts_ms, latest[1].1.value), (Stream::PvPower, 18, None));
    slot.clear_latest();
    assert!(slot.latest_samples().is_empty());
    let past = slot.microgrid_history_body();
    assert_eq!(past.len(), 2);
    assert_eq!(past[1].1.len(), 2);
    assert_eq!(past[1].1[0].value, Some(s(-5.0)));
}

#[test]
fn stream_rings_are_bounded() {
    let mut slot = new_microgrid_slot();
    for i in 0..(MICROGRID_HISTORY_CAP as i64 + 3) {
        slot.publish_scalar(Stream::ConsumerPower, "Power", "W", None, i);
    }
    let past = slot.microgrid_history_body();
    assert_eq!(past[0].1.len(), MICROGRID_HISTORY_CAP);
    assert_eq!(past[0].1[0].ts_ms, 3);
}

#[test]
fn pools_report_their_outermost_bounds() {
    let b = |lower: Option<f32>, upper: Option<f32>| Bounds {
        lower: lower.map(s),
        upper: upper.map(s),
    };
    let outer = outer_bound(&vec![
        b(Some(-3.0), Some(2.0)),
        b(None, Some(9.0)),
        b(Some(-7.0), None),
    ]);
    assert_eq!((outer.lower, outer.upper), (Some(s(-7.0)), Some(s(9.0))));
    let none = outer_bound(&vec![]);
    assert_eq!((none.lower, none.upper), (None, None));
}

#[test]
fn changes_and_gaps_rebuild() {
    assert_eq!(supervise(Notice::TopologyChanged), Supervision::Rebuild);
    assert_eq!(supervise(Notice::Lagged), Supervision::Rebuild);
    assert_eq!(supervise(Notice::Other), Supervision::Wait);
    assert_eq!(supervise(Notice::Closed), Supervision::RebuildAndExit);
}

#[test]
fn a_session_follows_each_microgrid_once() {
    let mut reg = Microgrids::new();
    reg.insert(entry(7));
    reg.insert(entry(3));
    let mut session = Subscriptions::new();
    assert_eq!(session.catch_up(&reg), vec![3, 7]);
    assert_eq!(session.catch_up(&reg), Vec::<u64>::new());
    assert!(!session.on_registered(7, &reg));
    // Announced, but not in the registry.
    assert!(!session.on_registered(9, &reg));
    reg.insert(entry(9));
    assert!(session.on_registered(9, &reg));
    assert!(!session.on_registered(9, &reg));
    reg.insert(entry(1));
    assert_eq!(session.catch_up(&reg), vec![1]);
}

#[test]
fn wire_events_say_where_they_come_from() {
    let of_site = WireEvent::of_site(4, SiteEvent::TopologyChanged { version: 2 });
    assert_eq!(of_site.mg_id, Some(4));
    let of_log = WireEvent::of_log(line(9, "hi"));
    assert_eq!(of_log.mg_id, None);
    assert!(matches!(of_log.event, SiteEvent::Log { ts_ms: 9, .. }));
    let change = DispatchEvent {
        microgrid_id: 2200,
        change: DispatchChange::Deleted,
        dispatch: Dispatch {
            metadata: Some(DispatchMetadata {
                dispatch_id: 5,
                create_time: None,
                update_time: None,
                end_time: None,
            }),
            data: None,
        },
    };
    let of_dispatch = WireEvent::of_dispatch(&change);
    assert_eq!(of_dispatch.mg_id, Some(2200));
    match of_dispatch.event {
        SiteEvent::DispatchChanged { dispatch_id, change } => {
            assert_eq!((dispatch_id, change.as_str()), (5, "deleted"));
        }
        other => panic!("unexpected event: {other:?}"),
    }
}

#[test]
fn a_log_without_capacity_stays_empty() {
    let mut b = LogBuffer::new(0);
    b.push(line(1, "a"));
    assert!(b.snapshot().is_empty());
    assert!(LogBuffer::default().snapshot().is_empty());
}

#[test]
fn a_terminal_log_keeps_the_latest_line() {
    for mut lines in [TerminalLog::new(0), TerminalLog::new(1), TerminalLog::default()] {
        assert!(lines.lines().is_empty());
        lines.push("a".to_string());
        assert_eq!(lines.lines(), vec!["a"]);
        lines.push("b".to_string());
        assert_eq!(lines.lines(), vec!["b"]);
    }
}
