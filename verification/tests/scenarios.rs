use switchyard::history::Metric;
use switchyard::report::{compute_soc_stats, PerBatteryReport, PerPvReport, ScenarioCheck, ScenarioTotals, WindowSum};
use switchyard::scalar::{Scalar, Wide};
use switchyard::scenario::{ScenarioJournal, SCENARIO_EVENT_CAPACITY};
use switchyard::scenarios::{run_call, runner, RecordDirective, RunArg, ScenarioDef, ScenarioRegistry};
use switchyard::component::{Category, Telemetry};
use switchyard::registry::Component;
use switchyard::sampling::Snapshot;
use switchyard::site::MicrogridSite;
use switchyard::time::Moment;
use switchyard::timeline::{build_timeline, ClockDriver, Form, Schedule, TimelineKind};

fn s(v: f32) -> Scalar {
    Scalar::from_bits(v.to_bits())
}

fn w(v: f64) -> Wide {
    Wide { bits: v.to_bits() }
}

fn d(v: Wide) -> f64 {
    f64::from_bits(v.bits)
}

fn ts(secs: i64) -> Moment {
    Moment::from_secs(secs)
}

fn elapsed_s(j: &ScenarioJournal, now: Moment) -> f64 {
    j.elapsed(now).nanos as f64 / 1e9
}

fn ids(j: &ScenarioJournal, from: u64, limit: usize) -> Vec<u64> {
    j.events_since(from, limit).iter().map(|e| e.id).collect()
}

#[test]
fn lifecycle_sets_and_freezes_elapsed() {
    let mut j = ScenarioJournal::default();
    assert_eq!(elapsed_s(&j, ts(100)), 0.0);
    j.start("warmup".into(), ts(100));
    assert_eq!(j.name.as_deref(), Some("warmup"));
    assert!((elapsed_s(&j, ts(160)) - 60.0).abs() < 1e-6);
    // Stopping freezes it.
    j.stop(ts(160));
    assert!((elapsed_s(&j, ts(9999)) - 60.0).abs() < 1e-6);
    // A second stop keeps the first time.
    j.stop(ts(99999));
    assert!((elapsed_s(&j, ts(9999)) - 60.0).abs() < 1e-6);
}

#[test]
fn record_assigns_monotonic_ids_and_filters_since() {
    let mut j = ScenarioJournal::default();
    j.start("s".into(), ts(0));
    let id0 = j.record("note".into(), "hi".into(), ts(1));
    let id1 = j.record("outage".into(), "bat-1003".into(), ts(2));
    let id2 = j.record("note".into(), "bye".into(), ts(3));
    assert_eq!((id0, id1, id2), (0, 1, 2));
    assert_eq!(ids(&j, 0, 10), vec![0, 1, 2]);
    assert_eq!(ids(&j, 2, 10), vec![2]);
    assert_eq!(ids(&j, 0, 2), vec![0, 1]);
}

#[test]
fn start_clears_events_but_ids_continue() {
    let mut j = ScenarioJournal::default();
    j.start("first".into(), ts(0));
    j.record("a".into(), String::new(), ts(1));
    j.record("b".into(), String::new(), ts(2));
    assert_eq!(j.event_count(), 2);

    j.start("second".into(), ts(100));
    assert_eq!(j.event_count(), 0);
    assert_eq!(j.next_event_id(), 2);

    let id = j.record("c".into(), String::new(), ts(101));
    assert_eq!(id, 2);
}

#[test]
fn ring_caps_at_capacity_and_drops_oldest() {
    let mut j = ScenarioJournal::default();
    j.start("flood".into(), ts(0));
    for i in 0..(SCENARIO_EVENT_CAPACITY + 50) {
        j.record("tick".into(), i.to_string(), ts(i as i64));
    }
    assert_eq!(j.event_count(), SCENARIO_EVENT_CAPACITY);
    let earliest = j.events_since(0, 1).into_iter().next().unwrap();
    assert_eq!(earliest.id, 50);
    assert_eq!(j.earliest_event_id(), 50);
}

#[test]
fn only_the_main_meter_sets_the_peak() {
    let mut j = ScenarioJournal::default();
    j.start("s".into(), ts(0));
    j.record_sample(1, Metric::ActivePowerW, s(500.0), Some(1));
    j.record_sample(2, Metric::ActivePowerW, s(900.0), Some(1));
    j.record_sample(1, Metric::SocPct, s(99.0), Some(1));
    j.record_sample(1, Metric::ActivePowerW, s(-800.0), Some(1));
    assert_eq!(f32::from_bits(j.peak_main_meter_active_w().bits), 500.0);
    j.stop(ts(1));
    j.record_sample(1, Metric::ActivePowerW, s(700.0), Some(1));
    assert_eq!(f32::from_bits(j.peak_main_meter_active_w().bits), 500.0);
}

fn def(name: &str) -> ScenarioDef<u8> {
    ScenarioDef {
        name: name.into(),
        description: String::new(),
        schedule: Schedule::Relative,
        clock: ClockDriver::Real,
        length_s: None,
        date: None,
        seed: None,
        setup: None,
        drive: Vec::new(),
        agents: Vec::new(),
        cues: Vec::new(),
        expect: Vec::new(),
        record: None,
        timeline: Vec::new(),
    }
}

#[test]
fn snapshot_is_alphabetic() {
    let mut reg = ScenarioRegistry::new();
    for n in ["zulu", "alpha", "mike"] {
        reg.insert(def(n));
    }
    let names: Vec<String> = reg.snapshot().into_iter().map(|v| v.name).collect();
    assert_eq!(names, vec!["alpha", "mike", "zulu"]);
}

#[test]
fn a_later_definition_takes_the_name() {
    let mut reg = ScenarioRegistry::new();
    reg.insert(def("a"));
    reg.insert(ScenarioDef {
        cues: vec![1, 2],
        setup: Some(0),
        record: Some(RecordDirective::Symbol),
        ..def("a")
    });
    let views = reg.snapshot();
    assert_eq!(views.len(), 1);
    assert_eq!((views[0].n_cues, views[0].has_setup, views[0].records), (2, true, true));
    assert!(reg.get("b").is_none());
}

#[test]
fn starting_resolves_where_to_record() {
    let mut reg = ScenarioRegistry::new();
    reg.insert(def("plain"));
    reg.insert(ScenarioDef {
        record: Some(RecordDirective::Symbol),
        ..def("csv")
    });
    reg.insert(ScenarioDef {
        record: Some(RecordDirective::Directory("out".to_string())),
        ..def("dir")
    });
    reg.insert(ScenarioDef {
        record: Some(RecordDirective::Unreadable("not a string".to_string())),
        ..def("bad")
    });
    let target = |name: &str| match reg.start(name).unwrap().pop() {
        Some(RunArg::Text(dir)) => Some(dir),
        Some(RunArg::Nil) => None,
        other => panic!("no directory: {other:?}"),
    };
    assert_eq!(target("plain"), None);
    assert_eq!(target("csv").as_deref(), Some("scenario-csv"));
    assert_eq!(target("dir").as_deref(), Some("out"));
    assert_eq!(reg.start("bad").err().as_deref(), Some("record: not a string"));
    assert_eq!(
        reg.start("a \"b\"").err().as_deref(),
        Some("no scenario named \"a \\\"b\\\"\"")
    );
}

#[test]
fn a_run_hands_over_every_section() {
    assert_eq!(runner(), "scenario--run");
    let full = ScenarioDef {
        seed: Some(7),
        setup: Some(1),
        drive: vec![2, 3],
        agents: vec![4],
        cues: vec![5, 6, 7],
        expect: vec![8],
        ..def("full")
    };
    let args = run_call(&full, Some("out"));
    assert_eq!(args.len(), 8);
    assert!(matches!(&args[0], RunArg::Text(t) if t == "full"));
    assert!(matches!(args[1], RunArg::Int(7)));
    assert!(matches!(args[2], RunArg::Single(1)));
    for (at, forms) in [(3, &full.drive), (4, &full.agents), (5, &full.cues), (6, &full.expect)] {
        assert!(matches!(args[at], RunArg::Listed(own) if own == forms), "{at}");
    }
    assert!(matches!(&args[7], RunArg::Text(t) if t == "out"));

    let bare = def("bare");
    let args = run_call(&bare, None);
    assert_eq!(args.len(), 8);
    for at in [1, 2, 7] {
        assert!(matches!(args[at], RunArg::Nil), "{at}");
    }
    for at in 3..7 {
        assert!(matches!(args[at], RunArg::Listed(own) if own.is_empty()), "{at}");
    }
}

fn sym(name: &str) -> Form {
    Form::Symbol(name.to_string())
}

fn plist(pairs: Vec<(&str, Form)>) -> Form {
    let mut items = Vec::new();
    for (k, v) in pairs {
        items.push(sym(k));
        items.push(v);
    }
    Form::List(items)
}

fn show(v: Wide) -> String {
    format!("{}", d(v))
}

#[test]
fn timelines_are_sorted_and_labelled() {
    let cues = vec![
        plist(vec![(":at-s", Form::Real(w(30.0)))]),
        plist(vec![(":what", sym("x"))]),
        plist(vec![(":at-s", Form::Real(w(5.5)))]),
    ];
    let expect = vec![
        plist(vec![
            (":at-s", Form::Real(w(5.5))),
            (
                ":expect",
                plist(vec![
                    (":component", Form::Int(12, w(12.0))),
                    (":metric", sym("soc_pct")),
                ]),
            ),
        ]),
        plist(vec![(":at-s", Form::Int(1, w(1.0)))]),
    ];
    let line = build_timeline(&cues, &expect, show);
    let labels: Vec<&str> = line.iter().map(|e| e.label.as_str()).collect();
    assert_eq!(labels, vec!["check", "cue @5.5s", "check 12 soc_pct", "cue @30s"]);
    assert_eq!(line[0].kind, TimelineKind::Check);
    assert_eq!(line[2].component, Some(12));
    assert_eq!(line[2].metric.as_deref(), Some("soc_pct"));
}

fn plus(a: Wide, b: Wide) -> Wide {
    w(d(a) + d(b))
}

fn over(a: Wide, n: u64) -> Wide {
    w(d(a) / n as f64)
}

fn mean(socs: &Vec<Scalar>) -> Wide {
    let sum: f64 = socs.iter().map(|v| f32::from_bits(v.bits) as f64).sum();
    w(sum / socs.len() as f64)
}

fn component(id: u64, category: Category) -> Component {
    Component {
        id,
        category,
        name: format!("c-{id}"),
        subtype: None,
        hidden: false,
    }
}

#[test]
fn driver_run_aggregates_peak_charge_and_soc_stats() {
    let mut site = MicrogridSite::new();
    site.register(component(3, Category::Battery));
    site.register(component(2, Category::Meter));
    site.set_main_meter(2).unwrap();
    site.scenario_start("smoke".into(), ts(0));
    let battery = || Telemetry {
        dc_power_w: Some(s(3600.0)),
        soc_pct: Some(s(50.01)),
        ..Default::default()
    };
    let meter = || Telemetry {
        active_power_w: Some(s(3600.0)),
        ..Default::default()
    };
    let mut charged = 0.0;
    let mut last = 0;
    for now in [0, 10] {
        let pass = vec![
            Snapshot {
                telemetry: battery(),
                bounds: None,
            },
            Snapshot {
                telemetry: meter(),
                bounds: None,
            },
        ];
        let out = site.record_history_snapshot(ts(now), &pass);
        for (id, p) in out.pass.battery_samples {
            assert_eq!(id, 3);
            charged += f32::from_bits(p.bits) as f64 * (now - last) as f64 / 3600.0;
        }
        last = now;
    }
    let totals = ScenarioTotals {
        per_battery: vec![PerBatteryReport {
            id: 3,
            charge_wh: w(charged),
            discharge_wh: w(0.0),
        }],
        per_pv: vec![],
        windows: vec![],
        checks: vec![],
        checks_passed: 0,
        checks_failed: 0,
    };
    let telemetry = vec![battery(), meter()];
    let r = site.scenario_report(&totals, &telemetry, ts(10), plus, over, mean);
    let peak = f32::from_bits(r.peak_main_meter_w.bits);
    assert!((3000.0..=4000.0).contains(&peak), "expected ~3600 W peak, got {peak}");
    let total = d(r.total_battery_charged_wh);
    assert!((8.0..=12.0).contains(&total), "expected ~10 Wh charged, got {total}");
    assert_eq!(d(r.total_battery_discharged_wh), 0.0);
    let mean_pct = d(r.soc_stats.as_ref().unwrap().mean_pct);
    assert!((45.0..=55.0).contains(&mean_pct), "expected mean SoC near 50, got {mean_pct}");
    assert_eq!(r.per_battery.len(), 1);
    assert_eq!(r.per_battery[0].id, 3);

    // Stopping freezes the elapsed time.
    site.scenario_stop(ts(12));
    let frozen = site.scenario_elapsed(ts(20));
    assert_eq!(frozen, site.scenario_elapsed(ts(50)));
    assert_eq!(frozen.nanos, 12_000_000_000);
}

#[test]
fn reports_add_up_and_average() {
    let mut site = MicrogridSite::new();
    site.scenario_start("s".into(), ts(0));
    let totals = ScenarioTotals {
        per_battery: vec![
            PerBatteryReport {
                id: 9,
                charge_wh: w(1.5),
                discharge_wh: w(0.25),
            },
            PerBatteryReport {
                id: 3,
                charge_wh: w(2.0),
                discharge_wh: w(0.5),
            },
        ],
        per_pv: vec![PerPvReport {
            id: 6,
            produced_wh: w(7.0),
        }],
        windows: vec![WindowSum {
            start_secs: 900,
            sum_w: w(30.0),
            count: 4,
        }],
        checks: vec![ScenarioCheck {
            at: ts(3),
            component: Some(1),
            metric: None,
            passed: true,
        }],
        checks_passed: 1,
        checks_failed: 0,
    };
    let r = site.scenario_report(&totals, &vec![], ts(4), plus, over, mean);
    assert_eq!(d(r.total_battery_charged_wh), 3.5);
    assert_eq!(d(r.total_battery_discharged_wh), 0.75);
    assert_eq!(d(r.total_pv_produced_wh), 7.0);
    assert_eq!(r.per_battery.iter().map(|b| b.id).collect::<Vec<_>>(), vec![9, 3]);
    assert_eq!(r.main_meter_window_averages.len(), 1);
    assert_eq!(d(r.main_meter_window_averages[0].avg_w), 7.5);
    assert_eq!(r.main_meter_window_averages[0].window_start, ts(900));
    assert_eq!((r.checks_passed, r.checks_failed, r.checks.len()), (1, 0, 1));
    assert!(r.soc_stats.is_none());
    assert_eq!(r.scenario_elapsed.nanos, 4_000_000_000);
}

#[test]
fn a_report_can_be_fetched_again() {
    let mut site = MicrogridSite::new();
    site.register(component(3, Category::Battery));
    site.scenario_start("s".into(), ts(0));
    let totals = ScenarioTotals {
        per_battery: vec![PerBatteryReport {
            id: 3,
            charge_wh: w(0.1),
            discharge_wh: w(0.2),
        }],
        windows: vec![WindowSum {
            start_secs: 900,
            sum_w: w(10.0),
            count: 3,
        }],
        ..Default::default()
    };
    let telemetry = vec![Telemetry {
        soc_pct: Some(s(33.3)),
        ..Default::default()
    }];
    let report = || site.scenario_report(&totals, &telemetry, ts(4), plus, over, mean);
    let (a, b) = (report(), report());
    assert_eq!(format!("{a:?}"), format!("{b:?}"));
    assert_eq!(a.total_battery_charged_wh, w(0.1));
    assert_eq!(a.main_meter_window_averages[0].avg_w, w(10.0 / 3.0));
    // Without a charge on offer there are no statistics.
    let silent = vec![Telemetry::default()];
    let quiet = site.scenario_report(&totals, &silent, ts(4), plus, over, mean);
    assert!(a.soc_stats.is_some() && quiet.soc_stats.is_none());
}

#[test]
fn windows_are_reported_oldest_first() {
    let site = MicrogridSite::new();
    let mut totals = ScenarioTotals::default();
    assert!(totals.windows.is_empty() && totals.checks.is_empty());
    for start_secs in [-900, 0, 900, 1_800] {
        totals.windows.push(WindowSum {
            start_secs,
            sum_w: w(start_secs as f64),
            count: 1,
        });
    }
    let r = site.scenario_report(&totals, &vec![], ts(4), plus, over, mean);
    let starts: Vec<Moment> = r.main_meter_window_averages.iter().map(|a| a.window_start).collect();
    assert_eq!(starts, vec![ts(-900), ts(0), ts(900), ts(1_800)]);
}

#[test]
fn the_order_of_charges_does_not_matter() {
    let mut values: Vec<Scalar> = [20.0, 80.0, 50.4, 50.0, 19.6, 81.0].map(s).to_vec();
    for _ in 0..values.len() {
        values.rotate_left(1);
        let stats = compute_soc_stats(&values, mean).unwrap();
        assert_eq!(stats.median_pct, s(50.0));
        assert_eq!(stats.mode_pct, Some(20));
    }
}
