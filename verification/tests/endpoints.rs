use switchyard::answers::{
    dispatch_err_to_http, eval_response, microgrid_status_body, mime_for, not_registered,
    persisted_remove, scenario_csv_file, Evaluation, BAD_REQUEST, CREATED, INTERNAL_SERVER_ERROR,
    NOT_FOUND, NO_CONTENT, SERVICE_UNAVAILABLE, STATUS_OK,
};
use switchyard::component::{Category, Telemetry};
use switchyard::dispatch::{
    new_store, Dispatch, DispatchChange, DispatchData, DispatchError, DispatchMetadata,
    DispatchStore,
};
use switchyard::dispatch_views::{
    dispatch_create, dispatch_delete, dispatch_set_active, dispatches_for_mg, recurrence_from_req,
    recurrence_to_string, DispatchCreateReq, RecurrenceReq,
};
use switchyard::lisp_format::{
    default_names, defaults, formattable, overrides_list, DEFAULT_CATEGORIES,
};
use switchyard::payload::JsonValue;
use switchyard::queries::{history_body, scenario_events, setpoints};
use switchyard::registry::Component;
use switchyard::sampling::Snapshot;
use switchyard::scalar::{Scalar, Wide};
use switchyard::setpoints::{SetpointEvent, SetpointKind, SetpointOutcome};
use switchyard::site::MicrogridSite;
use switchyard::time::Moment;
use switchyard::topology::topology_snapshot;

fn s(v: f32) -> Scalar {
    Scalar::from_bits(v.to_bits())
}

fn t(secs: i64) -> Moment {
    Moment::from_secs(secs)
}

fn now() -> Moment {
    t(1_700_000_000)
}

fn component(id: u64, category: Category) -> Component {
    Component {
        id,
        category,
        name: format!("c-{id}"),
        subtype: None,
        hidden: false,
    }
}

fn blank() -> DispatchData {
    DispatchData {
        type_: String::new(),
        start_time: None,
        duration: None,
        target: None,
        is_active: false,
        is_dry_run: false,
        payload: None,
        recurrence: None,
    }
}

fn seed_dispatch(store: &mut DispatchStore, mg: u64, id: u64, type_: &str, active: bool) {
    store.insert(
        mg,
        Dispatch {
            metadata: Some(DispatchMetadata {
                dispatch_id: id,
                create_time: None,
                update_time: None,
                end_time: None,
            }),
            data: Some(DispatchData {
                type_: type_.to_string(),
                is_active: active,
                ..blank()
            }),
        },
    );
}

fn active_dispatch(type_: &str) -> DispatchData {
    DispatchData {
        type_: type_.to_string(),
        is_active: true,
        ..blank()
    }
}

fn request(type_: &str, target: &str) -> DispatchCreateReq {
    DispatchCreateReq {
        type_: type_.to_string(),
        target: target.to_string(),
        duration_s: None,
        active: None,
        dry_run: None,
        payload: None,
        start_ms: None,
        recurrence: None,
    }
}

fn every(freq: &str, interval: Option<u32>) -> RecurrenceReq {
    RecurrenceReq {
        freq: freq.to_string(),
        interval,
    }
}

fn check_topology() {
    let mut site = MicrogridSite::new();
    site.register(component(1, Category::Grid));
    site.register(component(2, Category::Meter));
    site.register(component(3, Category::Battery));
    site.connect(1, 2);
    site.connect(2, 3);
    let out = topology_snapshot(&site, None);
    assert_eq!(out.components.len(), 3);
    assert_eq!(out.connections.len(), 2);
}

#[test]
fn tests_topology_endpoint_emits_components_and_connections() {
    check_topology();
}

#[test]
fn ui_topology_endpoint_emits_components_and_connections() {
    check_topology();
}

#[test]
fn topologies_show_names_knobs_and_hidden_edges() {
    let mut site = MicrogridSite::new();
    site.register(component(1, Category::EvCharger));
    let mut load = component(9, Category::Meter);
    load.hidden = true;
    site.register(load);
    site.connect(1, 9);
    site.rename(1, "front".to_string());
    site.set_main_meter(9).unwrap();
    let out = topology_snapshot(&site, Some("no grid".to_string()));
    assert_eq!(out.components[0].name, "front");
    assert_eq!(out.components[0].category, "ev-charger");
    assert_eq!(out.components[0].health, "ok");
    assert_eq!(out.components[0].telemetry_mode, "normal");
    assert_eq!(out.components[0].command_mode, "normal");
    assert!(out.components[1].hidden);
    assert!(out.connections.is_empty());
    assert_eq!(out.hidden_connections, vec![(1, 9)]);
    assert_eq!(out.graph_status.as_deref(), Some("no grid"));
    assert_eq!(out.main_meter_id, Some(9));
}

#[test]
fn tests_eval_endpoint_runs_lisp_and_returns_value() {
    check_value();
}

#[test]
fn ui_eval_endpoint_runs_lisp_and_returns_value() {
    check_value();
}

#[test]
fn tests_eval_endpoint_reports_lisp_errors() {
    check_failure();
}

#[test]
fn ui_eval_endpoint_reports_lisp_errors() {
    check_failure();
}

fn check_value() {
    let (status, body) = eval_response(Evaluation::Value("5".to_string()));
    assert_eq!(status, STATUS_OK);
    assert!(body.ok);
    assert_eq!(body.value.as_deref(), Some("5"));
    assert!(body.error.is_none());
}

fn check_failure() {
    let (status, body) = eval_response(Evaluation::Failure("void function".to_string()));
    assert_eq!(status, STATUS_OK);
    assert!(!body.ok);
    assert!(body.value.is_none());
    assert!(!body.error.unwrap().is_empty());
}

#[test]
fn a_panicking_evaluation_is_a_server_error() {
    let (status, body) = eval_response(Evaluation::Panicked("boom".to_string()));
    assert_eq!(status, INTERNAL_SERVER_ERROR);
    assert_eq!(body.error.as_deref(), Some("eval task panicked: boom"));
}

#[test]
fn format_endpoint_pretty_prints_lisp() {
    let source = "(when (< x 5)(inc x)(princ x))";
    assert!(formattable(source));
    let out = switchyard::lisp_format::format(source, Some(20)).unwrap();
    // A width of 20 puts each body form on its own line.
    assert_eq!(out, "(when (< x 5)\n  (inc x)\n  (princ x))\n");
    // A narrower one is held to 20, and the default is wide enough for one line.
    assert_eq!(switchyard::lisp_format::format(source, Some(1)).unwrap(), out);
    assert_eq!(switchyard::lisp_format::format(source, None).unwrap(), "(when (< x 5) (inc x) (princ x))\n");
}

#[test]
fn format_endpoint_returns_400_on_parse_error() {
    assert!(formattable("(unbalanced"));
    let refusal = switchyard::lisp_format::format("(unbalanced", None).unwrap_err();
    assert_eq!(refusal.status, BAD_REQUEST);
    assert!(!refusal.message.is_empty());
}

#[test]
fn only_split_literals_cannot_be_formatted() {
    // The formatter takes one byte behind the question mark.
    assert!(!formattable("?\u{e9}"));
    assert!(!formattable("(list '?\u{e9})"));
    for source in [
        "?a",
        "?\\\u{e9}",
        "; ?\u{e9}",
        "\"?\u{e9}\"",
        "\"a\\\"?\u{e9}\"",
        "what?\u{e9}",
        ") ?\u{e9}",
        "(') ?\u{e9}",
        "#'a ,@b `c",
        "#x ?(",
        "?",
        "",
    ] {
        assert!(formattable(source), "{source}");
        let _ = switchyard::lisp_format::format(source, None);
    }
}

#[test]
fn history_endpoint_returns_recent_samples() {
    let mut site = MicrogridSite::new();
    site.register(component(1000, Category::Battery));
    for back in [2, 1] {
        site.record_history_snapshot(
            t(1_700_000_000 - back),
            &vec![Snapshot {
                telemetry: Telemetry {
                    soc_pct: Some(s(50.0)),
                    ..Default::default()
                },
                bounds: None,
            }],
        );
    }
    let out = history_body(&site, 1000, "soc_pct".to_string(), Some(10), now()).unwrap();
    assert_eq!(out.id, 1000);
    assert_eq!(out.metric, "soc_pct");
    assert_eq!((out.quantity, out.unit), ("Percentage", "%"));
    assert_eq!(out.samples.len(), 2);
    assert!(out.samples[0].0 < out.samples[1].0);
    assert_eq!(out.samples[1], (1_699_999_999_000, s(50.0)));
    let short = history_body(&site, 1000, "soc_pct".to_string(), Some(1), now()).unwrap();
    assert_eq!(short.samples.len(), 1);
    let wide = history_body(&site, 1000, "soc_pct".to_string(), None, now()).unwrap();
    assert_eq!(wide.samples.len(), 2);
}

#[test]
fn history_endpoint_rejects_unknown_metric() {
    let site = MicrogridSite::new();
    let refusal = history_body(&site, 1, "foo".to_string(), None, now()).unwrap_err();
    assert_eq!(refusal.status, BAD_REQUEST);
    assert_eq!(refusal.message, "unknown metric 'foo'");
}

#[test]
fn history_endpoint_returns_empty_for_unknown_component() {
    let site = MicrogridSite::new();
    let out = history_body(&site, 999, "active_power_w".to_string(), None, now()).unwrap();
    assert!(out.samples.is_empty());
}

#[test]
fn setpoint_queries_read_a_window() {
    let mut site = MicrogridSite::new();
    for back in [700, 5] {
        site.log_setpoint(
            4,
            SetpointEvent {
                ts: t(1_700_000_000 - back),
                kind: SetpointKind::ActivePower,
                value: s(back as f32),
                ttl_s: None,
                outcome: SetpointOutcome::Accepted {
                    effective_value: None,
                },
            },
        );
    }
    let out = setpoints(&site, 4, None, now());
    assert_eq!((out.id, out.events.len()), (4, 2));
    assert_eq!(setpoints(&site, 4, Some(1_000), now()).events.len(), 2);
    assert_eq!(setpoints(&site, 4, Some(600), now()).events.len(), 1);
    assert!(setpoints(&site, 5, None, now()).events.is_empty());
}

#[test]
fn overrides_endpoint_lists_appended_evals() {
    let out = overrides_list(vec![
        (0, "(rename-component 1 \"a\")".to_string()),
        (1, "(set-enterprise-id 42)".to_string()),
    ]);
    assert_eq!(out.persisted.len(), 2);
    assert!(out.persisted.iter().any(|e| e.source.contains("rename")));
    assert!(out.persisted.iter().any(|e| e.source.contains("set-enterprise-id")));
    assert_eq!(out.count, 2);
    // The formatter's trailing newline goes; what does not parse stays as it is.
    assert_eq!(out.persisted[1].source, "(set-enterprise-id 42)");
    let odd = overrides_list(vec![(7, "(open ".to_string())]);
    assert_eq!((odd.persisted[0].idx, odd.persisted[0].source.as_str()), (7, "(open "));
}

#[test]
fn persisted_remove_drops_form_immediately() {
    assert_eq!(persisted_remove(0, Ok(1)).unwrap(), NO_CONTENT);
    let refusal = persisted_remove(99, Ok(0)).unwrap_err();
    assert_eq!(refusal.status, NOT_FOUND);
    assert_eq!(refusal.message, "no persisted override at idx 99");
    let refusal = persisted_remove(1, Err("disk full".to_string())).unwrap_err();
    assert_eq!(refusal.status, INTERNAL_SERVER_ERROR);
    assert_eq!(refusal.message, "write failed: disk full");
}

#[test]
fn scenario_endpoints_round_trip_lifecycle_and_events() {
    let mut site = MicrogridSite::new();
    let before = site.scenario_summary(now());
    assert!(before.name.is_none());
    assert_eq!(before.event_count, 0);

    site.scenario_start("warmup".to_string(), now());
    site.scenario_record("outage".to_string(), "bat-1003".to_string(), now());
    site.scenario_record("note".to_string(), "hi".to_string(), now());

    let after = site.scenario_summary(now());
    assert_eq!(after.name.as_deref(), Some("warmup"));
    assert_eq!(after.event_count, 2);
    assert_eq!(after.next_event_id, 2);

    let all = scenario_events(&site, None, None, now());
    assert_eq!(all.events.len(), 2);
    assert_eq!(all.events[0].kind, "outage");
    assert_eq!(all.events[1].kind, "note");
    assert_eq!((all.next_event_id, all.earliest_event_id), (2, 0));

    let rest = scenario_events(&site, Some(1), None, now());
    assert_eq!(rest.events.len(), 1);
    assert_eq!(rest.events[0].id, 1);
    assert_eq!(scenario_events(&site, None, Some(1), now()).events.len(), 1);
}

#[test]
fn event_pages_are_capped() {
    let mut site = MicrogridSite::new();
    site.scenario_start("flood".to_string(), now());
    for _ in 0..1500 {
        site.scenario_record("tick".to_string(), String::new(), now());
    }
    assert_eq!(scenario_events(&site, None, None, now()).events.len(), 200);
    assert_eq!(scenario_events(&site, None, Some(5000), now()).events.len(), 1000);
}

#[test]
fn scenario_report_endpoint_returns_main_meter_peak() {
    let mut site = MicrogridSite::new();
    site.register(component(1, Category::Meter));
    site.set_main_meter(1).unwrap();
    site.scenario_start("smoke".to_string(), now());
    site.record_history_snapshot(
        now(),
        &vec![Snapshot {
            telemetry: Telemetry {
                active_power_w: Some(s(4500.0)),
                ..Default::default()
            },
            bounds: None,
        }],
    );
    assert_eq!(site.main_meter_id(), Some(1));
    let peak = f32::from_bits(site.registry.scenario.peak_main_meter_active_w().bits);
    assert!((peak - 4500.0).abs() < 1e-3, "got peak {peak}");
}

#[test]
fn dispatches_endpoint_lists_microgrid_dispatches_newest_first() {
    let mut store = new_store();
    seed_dispatch(&mut store, 2200, 1, "ALPHA", true);
    seed_dispatch(&mut store, 2200, 2, "PEAK_SHAVE", false);
    // A dispatch of another microgrid does not leak into the list.
    seed_dispatch(&mut store, 999, 3, "OTHER", true);

    let arr = dispatches_for_mg(&store, 2200);
    assert_eq!(arr.len(), 2);
    assert_eq!(arr[0].id, 2);
    assert_eq!(arr[0].type_, "PEAK_SHAVE");
    assert!(!arr[0].active);
    assert_eq!(arr[1].id, 1);
    assert_eq!(arr[1].type_, "ALPHA");
    assert!(arr[1].active);
}

#[test]
fn dispatches_endpoint_empty_for_microgrid_without_dispatches() {
    assert!(dispatches_for_mg(&new_store(), 4242).is_empty());
}

#[test]
fn dispatch_create_endpoint_stores_and_returns_view() {
    let mut store = new_store();
    let number = JsonValue::Number(Wide {
        bits: 5000.0_f64.to_bits(),
    });
    let req = DispatchCreateReq {
        payload: Some(JsonValue::Object(vec![("target_power_w".to_string(), number)])),
        ..request("ALPHA", "BATTERY")
    };
    let served = dispatch_create(&mut store, 2200, req, now()).unwrap();
    assert_eq!(served.status, CREATED);
    let v = served.view;
    assert_eq!(v.type_, "ALPHA");
    assert!(v.active);
    assert_eq!(v.target, "BATTERY");
    match &v.payload {
        JsonValue::Object(entries) => {
            assert_eq!(entries[0].0, "target_power_w");
            match &entries[0].1 {
                JsonValue::Number(n) => assert_eq!(f64::from_bits(n.bits), 5000.0),
                other => panic!("expected a number, got {other:?}"),
            }
        }
        other => panic!("expected an object, got {other:?}"),
    }
    // Without a start it starts at once.
    assert_eq!(v.start_ms, Some(1_700_000_000_000));
    assert_eq!(served.event.change, DispatchChange::Created);
    assert_eq!(store.list_mg(2200).len(), 1);
}

#[test]
fn dispatch_create_endpoint_rejects_bad_target() {
    let mut store = new_store();
    let refusal =
        dispatch_create(&mut store, 2200, request("X", "not-a-category"), now()).unwrap_err();
    assert_eq!(refusal.status, BAD_REQUEST);
    assert_eq!(store.total(), 0);
}

#[test]
fn bad_requests_are_refused_in_order() {
    let mut store = new_store();
    let all_wrong = || DispatchCreateReq {
        payload: Some(JsonValue::Bool(true)),
        recurrence: Some(every("sometimes", None)),
        ..request("X", "7")
    };
    let refusal = dispatch_create(&mut store, 1, all_wrong(), now()).unwrap_err();
    assert_eq!(refusal.message, "payload must be a JSON object");
    let req = DispatchCreateReq {
        payload: Some(JsonValue::Null),
        ..all_wrong()
    };
    let refusal = dispatch_create(&mut store, 1, req, now()).unwrap_err();
    assert_eq!(
        refusal.message,
        "unknown recurrence frequency \"sometimes\"; expected once or one of the frequencies the dispatch API defines (hourly, daily, weekly, \u{2026})"
    );
    assert_eq!((store.total(), store.next_id), (0, 1));
}

#[test]
fn a_request_fills_in_what_it_leaves_out() {
    let mut store = new_store();
    let req = DispatchCreateReq {
        duration_s: Some(90),
        active: Some(false),
        dry_run: Some(true),
        start_ms: Some(1_500),
        recurrence: Some(every("Daily", Some(2))),
        ..request("X", "1, 2")
    };
    let v = dispatch_create(&mut store, 1, req, now()).unwrap().view;
    assert_eq!((v.active, v.dry_run, v.start_ms), (false, true, Some(1_500)));
    assert_eq!(v.recurrence.as_deref(), Some("daily \u{d7}2"));
    assert_eq!(v.end_ms, None);
    assert_eq!(v.target, "1, 2");
    let once = DispatchCreateReq {
        duration_s: Some(90),
        start_ms: Some(1_500),
        recurrence: Some(every("ONCE", Some(2))),
        ..request("X", "1")
    };
    let v = dispatch_create(&mut store, 1, once, now()).unwrap().view;
    assert_eq!((v.recurrence, v.end_ms), (None, Some(91_500)));
    assert!(v.active && !v.dry_run);
    assert_eq!(v.create_ms, Some(1_700_000_000_000));
    // The newest one leads the list.
    assert_eq!(dispatches_for_mg(&store, 1)[0].id, v.id);
}

#[test]
fn frequencies_read_back() {
    for (freq, name) in [
        (1, "minutely"),
        (2, "hourly"),
        (3, "daily"),
        (4, "weekly"),
        (5, "monthly"),
        (6, "yearly"),
    ] {
        let rule = recurrence_from_req(&Some(every(name, None))).unwrap().unwrap();
        assert_eq!((rule.freq, rule.interval), (freq, 1));
        let text = recurrence_to_string(Some(&rule)).unwrap();
        assert_eq!(text, format!("{name} \u{d7}1"));
    }
    let rule = recurrence_from_req(&Some(every("wee\u{212a}ly", Some(0)))).unwrap().unwrap();
    assert_eq!((rule.freq, rule.interval), (4, 1));
    assert!(recurrence_from_req(&Some(every("", None))).unwrap().is_none());
    assert!(recurrence_from_req(&None).unwrap().is_none());
    assert!(recurrence_from_req(&Some(every("unspecified", None))).is_err());
    assert!(recurrence_to_string(None).is_none());
    let mut odd = rule;
    odd.freq = 0;
    assert!(recurrence_to_string(Some(&odd)).is_none());
    odd.freq = 77;
    assert!(recurrence_to_string(Some(&odd)).is_none());
}

#[test]
fn dispatch_active_endpoint_pauses_and_resumes() {
    let mut store = new_store();
    let id = store
        .create(2200, active_dispatch("X"), true, now())
        .unwrap()
        .dispatch_id();
    let served = dispatch_set_active(&mut store, 2200, id, false, now()).unwrap();
    assert_eq!(served.status, STATUS_OK);
    assert!(!served.view.active);
    assert!(!store.get(2200, id).unwrap().data.unwrap().is_active);

    let served = dispatch_set_active(&mut store, 2200, id, true, now()).unwrap();
    assert_eq!(served.status, STATUS_OK);
    assert!(store.get(2200, id).unwrap().data.unwrap().is_active);
    let refusal = dispatch_set_active(&mut store, 2200, id + 1, true, now()).unwrap_err();
    assert_eq!((refusal.status, refusal.message.as_str()), (NOT_FOUND, "dispatch not found"));
}

#[test]
fn dispatch_delete_endpoint_removes_then_404s() {
    let mut store = new_store();
    let id = store
        .create(2200, active_dispatch("X"), true, now())
        .unwrap()
        .dispatch_id();
    let (status, event) = dispatch_delete(&mut store, 2200, id).unwrap();
    assert_eq!(status, NO_CONTENT);
    assert_eq!(event.change, DispatchChange::Deleted);
    assert!(store.get(2200, id).is_none());

    let refusal = dispatch_delete(&mut store, 2200, id).unwrap_err();
    assert_eq!(refusal.status, NOT_FOUND);
    assert_eq!(refusal.message, format!("dispatch {id} not found for microgrid 2200"));
}

#[test]
fn defaults_list_what_is_bound() {
    let mut values: Vec<Option<String>> = vec![None; DEFAULT_CATEGORIES];
    values[2] = Some("((capacity . 92000.0) (initial-soc . 50.0))".to_string());
    values[6] = Some("nil".to_string());
    let out = defaults(&values);
    assert_eq!(out.len(), 2);
    assert_eq!((out[0].category, out[0].var_name.as_str()), ("battery", "battery-defaults"));
    // One pair per line.
    assert_eq!(out[0].value.lines().count(), 2);
    assert_eq!((out[1].category, out[1].value.as_str()), ("chp", "nil"));
    assert_eq!(default_names(3), ("battery-inverter", "battery-inverter-defaults".to_string()));
}

#[test]
fn refusals_carry_status_and_message() {
    let refusal = not_registered(42);
    assert_eq!((refusal.status, refusal.message.as_str()), (NOT_FOUND, "microgrid 42 not registered"));
    let refusal = dispatch_err_to_http(DispatchError::MissingStartTime);
    assert_eq!(refusal.status, BAD_REQUEST);
    let (status, body) = microgrid_status_body(None);
    assert_eq!((status, body.connected, body.component_count), (SERVICE_UNAVAILABLE, false, None));
    let (status, body) = microgrid_status_body(Some(4));
    assert_eq!((status, body.connected, body.component_count), (STATUS_OK, true, Some(4)));
}

#[test]
fn downloads_stay_in_the_recording() {
    let files = vec!["telemetry.csv".to_string()];
    assert!(scenario_csv_file("telemetry.csv", Some(&files)).is_ok());
    for name in ["../x.csv", "a/b.csv", "a\\b.csv", "x.txt", "csv", "a..csv"] {
        let refusal = scenario_csv_file(name, Some(&files)).unwrap_err();
        assert_eq!((refusal.status, refusal.message.as_str()), (BAD_REQUEST, "invalid filename"));
    }
    let refusal = scenario_csv_file("other.csv", Some(&files)).unwrap_err();
    assert_eq!((refusal.status, refusal.message.as_str()), (NOT_FOUND, "no such file"));
    let refusal = scenario_csv_file("other.csv", None).unwrap_err();
    assert_eq!((refusal.status, refusal.message.as_str()), (NOT_FOUND, "no recording"));
}

#[test]
fn assets_are_served_by_extension() {
    assert_eq!(mime_for("index.html"), "text/html; charset=utf-8");
    assert_eq!(mime_for("a/b.min.js"), "application/javascript; charset=utf-8");
    assert_eq!(mime_for("x.mjs"), "application/javascript; charset=utf-8");
    assert_eq!(mime_for("x.css"), "text/css; charset=utf-8");
    assert_eq!(mime_for("x.svg"), "image/svg+xml");
    assert_eq!(mime_for("json"), "application/octet-stream");
    assert_eq!(mime_for("x."), "application/octet-stream");
}
