use std::sync::Arc;
use switchyard::dispatch::{
    compute_end_time, is_recurring, new_store, stamp_updated, Dispatch, DispatchChange,
    DispatchData, DispatchError, DispatchMetadata, RecurrenceRule,
};
use switchyard::payload::{json_to_struct, struct_to_json, JsonValue, WireValue};
use switchyard::scalar::Wide;
use switchyard::target::{
    category_from_alias, electrical_category_label, parse_target, target_to_string, CategorySet,
    Components, IdSet, TargetComponents, BATTERY, CHP, GRID_CONNECTION_POINT,
};
use switchyard::text::chars_of;
use switchyard::time::{Moment, Timestamp};

fn now() -> Moment {
    Moment::from_secs(1_700_000_000)
}

fn blank() -> DispatchData {
    DispatchData {
        type_: String::new(),
        start_time: None,
        duration: None,
        target: None,
        is_active: false,
        is_dry_run: false,
        payload: None,
        recurrence: None,
    }
}

fn dispatch(id: u64, type_: &str) -> Dispatch {
    Dispatch {
        metadata: Some(DispatchMetadata {
            dispatch_id: id,
            create_time: None,
            update_time: None,
            end_time: None,
        }),
        data: Some(DispatchData {
            type_: type_.to_string(),
            ..blank()
        }),
    }
}

fn rule(freq: i32) -> Arc<RecurrenceRule> {
    Arc::new(RecurrenceRule {
        freq,
        interval: 1,
        end_criteria: None,
        byminutes: vec![],
        byhours: vec![],
        byweekdays: vec![],
        bymonthdays: vec![],
        bymonths: vec![],
    })
}

fn number(v: f64) -> JsonValue {
    JsonValue::Number(Wide { bits: v.to_bits() })
}

fn entry(key: &str, value: JsonValue) -> (String, JsonValue) {
    (key.to_string(), value)
}

#[test]
fn alloc_id_is_monotonic_and_starts_at_one() {
    let mut store = new_store();
    assert_eq!(store.alloc_id(), 1);
    assert_eq!(store.alloc_id(), 2);
    assert_eq!(store.alloc_id(), 3);
}

#[test]
fn insert_get_list_remove_roundtrip() {
    let mut store = new_store();
    store.insert(261, dispatch(1, "alpha"));
    store.insert(261, dispatch(2, "beta"));
    store.insert(900, dispatch(3, "alpha"));

    assert_eq!(store.total(), 3);
    let ids: Vec<u64> = store
        .list_mg(261)
        .iter()
        .map(|d| d.metadata.as_ref().unwrap().dispatch_id)
        .collect();
    assert_eq!(ids, vec![1, 2]);
    assert!(store.get(261, 2).is_some());
    assert!(store.get(900, 1).is_none());

    let removed = store.remove(261, 1).expect("dispatch 1 present");
    assert_eq!(removed.dispatch.data.unwrap().type_, "alpha");
    assert!(store.get(261, 1).is_none());
    assert_eq!(store.total(), 2);
}

#[test]
fn replace_only_updates_existing() {
    let mut store = new_store();
    store.insert(1, dispatch(1, "OLD"));
    assert!(store.replace(1, dispatch(1, "NEW")).is_some());
    assert_eq!(store.get(1, 1).unwrap().data.unwrap().type_, "NEW");
    assert!(store.replace(1, dispatch(99, "GHOST")).is_none());
    assert!(store.replace(2, dispatch(1, "WRONG_MG")).is_none());
    assert!(store.get(1, 99).is_none());
    assert!(store.get(2, 1).is_none());
}

#[test]
fn changes_broadcast_lifecycle_events() {
    let mut store = new_store();
    let ev = store.insert(261, dispatch(1, "alpha"));
    assert_eq!(ev.microgrid_id, 261);
    assert_eq!(ev.change, DispatchChange::Created);
    assert_eq!(ev.dispatch_id(), 1);

    let ev = store.replace(261, dispatch(1, "alpha-v2")).expect("updated event");
    assert_eq!(ev.change, DispatchChange::Updated);

    let ev = store.remove(261, 1).expect("deleted event");
    assert_eq!(ev.change, DispatchChange::Deleted);
    // The deleted record rides along even though it is gone from the store.
    assert_eq!(ev.dispatch.data.unwrap().type_, "alpha-v2");
    assert!(store.remove(261, 1).is_none());
}

#[test]
fn create_stamps_id_times_and_end() {
    let mut store = new_store();
    let data = DispatchData {
        type_: "alpha".to_string(),
        duration: Some(3600),
        ..blank()
    };
    let d = store.create(261, data, true, now()).expect("create ok").dispatch;
    let meta = d.metadata.unwrap();
    assert_eq!(meta.dispatch_id, 1);
    assert!(meta.create_time.is_some() && meta.update_time.is_some());
    let start = d.data.unwrap().start_time.unwrap();
    assert_eq!(start.seconds, 1_700_000_000);
    assert_eq!(meta.end_time.unwrap().seconds, start.seconds + 3600);
    assert!(store.get(261, 1).is_some());
}

#[test]
fn create_requires_a_start_time() {
    let mut store = new_store();
    let err = store.create(1, blank(), false, now()).unwrap_err();
    assert_eq!(err, DispatchError::MissingStartTime);
    assert_eq!(
        err.message(),
        "start_time is required unless start_immediately is set"
    );
    assert_eq!(store.total(), 0);
    assert_eq!(store.next_id, 1);
}

#[test]
fn set_active_toggles_and_broadcasts() {
    let mut store = new_store();
    let data = DispatchData {
        type_: "X".to_string(),
        is_active: true,
        ..blank()
    };
    let created = store.create(7, data, true, now()).unwrap();
    let id = created.dispatch_id();

    let paused = store.set_active(7, id, false, now()).unwrap();
    assert!(!paused.dispatch.data.unwrap().is_active);
    assert_eq!(paused.change, DispatchChange::Updated);
    assert!(!store.get(7, id).unwrap().data.unwrap().is_active);

    let err = store.set_active(7, 999, true, now()).unwrap_err();
    assert_eq!(err, DispatchError::NotFound);
    assert_eq!(err.message(), "dispatch not found");
}

#[test]
fn parse_target_handles_ids_categories_and_errors() {
    match parse_target("1, 2, 3").unwrap().components.unwrap() {
        Components::ComponentIds(set) => assert_eq!(set.ids, vec![1, 2, 3]),
        other => panic!("expected ids, got {other:?}"),
    }
    match parse_target("battery,grid").unwrap().components.unwrap() {
        Components::ComponentCategoriesTypes(set) => {
            let cats: Vec<i32> = set.categories.iter().map(|c| c.category).collect();
            assert_eq!(cats, vec![BATTERY, GRID_CONNECTION_POINT]);
        }
        other => panic!("expected categories, got {other:?}"),
    }
    assert!(parse_target("").is_err());
    assert!(parse_target("nonsense").is_err());
}

#[test]
fn payload_json_struct_roundtrip() {
    let tags = JsonValue::Array(vec![
        JsonValue::Text("a".to_string()),
        JsonValue::Text("b".to_string()),
    ]);
    let json = JsonValue::Object(vec![
        entry("target_power_w", number(5000.0)),
        entry(
            "nested",
            JsonValue::Object(vec![entry("on", JsonValue::Bool(true)), entry("tags", tags)]),
        ),
    ]);
    let st = json_to_struct(&json).expect("object converts");
    assert_eq!(format!("{:?}", struct_to_json(&st)), format!("{json:?}"));
    assert!(json_to_struct(&number(5.0)).is_err());
}

#[test]
fn compute_end_time_never_panics_on_extreme_inputs() {
    let huge = Timestamp {
        seconds: i64::MAX,
        nanos: 0,
    };
    assert!(compute_end_time(Some(&huge), Some(3600), false).is_none());
    let near_max = Timestamp {
        seconds: 8_210_000_000_000,
        nanos: 0,
    };
    assert!(compute_end_time(Some(&near_max), Some(u32::MAX), false).is_none());
    let t = Timestamp {
        seconds: 1_700_000_000,
        nanos: 0,
    };
    assert_eq!(
        compute_end_time(Some(&t), Some(3600), false).unwrap().seconds,
        1_700_003_600
    );
}

#[test]
fn end_times_need_a_start_a_duration_and_no_recurrence() {
    let t = Timestamp {
        seconds: 100,
        nanos: 5,
    };
    assert!(compute_end_time(None, Some(1), false).is_none());
    assert!(compute_end_time(Some(&t), None, false).is_none());
    assert!(compute_end_time(Some(&t), Some(1), true).is_none());
    assert_eq!(
        compute_end_time(Some(&t), Some(1), false),
        Some(Timestamp {
            seconds: 101,
            nanos: 5
        })
    );
    // A negative nanosecond count reads as zero.
    let odd = Timestamp {
        seconds: 100,
        nanos: -7,
    };
    assert_eq!(
        compute_end_time(Some(&odd), Some(0), false),
        Some(Timestamp {
            seconds: 100,
            nanos: 0
        })
    );
    // Only the last second of a minute has room for a leap second.
    let leap = Timestamp {
        seconds: 59,
        nanos: 1_500_000_000,
    };
    assert_eq!(
        compute_end_time(Some(&leap), Some(1), false),
        Some(Timestamp {
            seconds: 60,
            nanos: 500_000_000
        })
    );
    let no_leap = Timestamp {
        seconds: 60,
        nanos: 1_500_000_000,
    };
    assert!(compute_end_time(Some(&no_leap), Some(1), false).is_none());
}

#[test]
fn a_recurring_dispatch_has_no_end() {
    let mut store = new_store();
    let data = DispatchData {
        duration: Some(60),
        recurrence: Some(rule(3)),
        ..blank()
    };
    assert!(is_recurring(&data));
    let made = store.create(1, data, true, now()).unwrap();
    assert!(made.dispatch.metadata.unwrap().end_time.is_none());
    // An unspecified frequency does not recur.
    let once = DispatchData {
        duration: Some(60),
        recurrence: Some(rule(0)),
        ..blank()
    };
    assert!(!is_recurring(&once));
    let made = store.create(1, once, true, now()).unwrap();
    assert_eq!(made.dispatch_id(), 2);
    assert_eq!(
        made.dispatch.metadata.unwrap().end_time.unwrap().seconds,
        1_700_000_060
    );
}

#[test]
fn an_edit_keeps_id_and_creation_but_moves_the_end() {
    let mut store = new_store();
    let start = Timestamp {
        seconds: 1_000,
        nanos: 0,
    };
    let data = DispatchData {
        start_time: Some(start),
        duration: Some(10),
        ..blank()
    };
    let id = store.create(5, data, false, now()).unwrap().dispatch_id();
    let later = Moment::from_secs(1_700_000_100);
    let ev = store
        .update_with(5, id, later, |mut d| {
            if let Some(data) = d.data.as_mut() {
                data.duration = Some(20);
            }
            d
        })
        .unwrap();
    assert_eq!(ev.change, DispatchChange::Updated);
    let meta = store.get(5, id).unwrap().metadata.unwrap();
    assert_eq!(meta.dispatch_id, id);
    assert_eq!(meta.create_time.unwrap().seconds, 1_700_000_000);
    assert_eq!(meta.update_time.unwrap().seconds, 1_700_000_100);
    assert_eq!(meta.end_time.unwrap().seconds, 1_020);
    let err = store.update_with(5, id + 1, later, |d| d).unwrap_err();
    assert_eq!(err, DispatchError::NotFound);
    // A dispatch without metadata stays without.
    let bare = Dispatch {
        metadata: None,
        data: None,
    };
    assert!(stamp_updated(bare, later).metadata.is_none());
}

#[test]
fn ids_are_fresh_after_each_creation() {
    let mut store = new_store();
    let mut seen: Vec<u64> = Vec::new();
    for _ in 0..5 {
        let id = store.create(9, blank(), true, now()).unwrap().dispatch_id();
        assert!(!seen.contains(&id));
        seen.push(id);
    }
    assert_eq!(seen, vec![1, 2, 3, 4, 5]);
    assert!(store.remove(9, 5).is_some());
    assert_eq!(store.create(9, blank(), true, now()).unwrap().dispatch_id(), 6);
}

#[test]
fn unknown_targets_are_named_in_quotes() {
    let err = parse_target("battery, 7x").unwrap_err();
    assert_eq!(
        err,
        "unknown target \"7x\"; expected component ids (e.g. \"1,2\") or categories (battery, grid, meter, inverter, ev_charger, chp)"
    );
    assert_eq!(parse_target(" , ,").unwrap_err(), "target is empty");
    // Ids and categories do not mix: the first token that is no category is at fault.
    assert!(parse_target("1,battery").unwrap_err().starts_with("unknown target \"1\""));
}

#[test]
fn targets_read_back_as_text() {
    let ids = parse_target("10,+2").unwrap();
    assert_eq!(target_to_string(Some(&ids)), "10, 2");
    let cats = parse_target("Battery,CHP").unwrap();
    assert_eq!(target_to_string(Some(&cats)), "BATTERY, CHP");
    assert_eq!(target_to_string(None), "\u{2014}");
    let nothing = TargetComponents { components: None };
    assert_eq!(target_to_string(Some(&nothing)), "\u{2014}");
    let plain = TargetComponents {
        components: Some(Components::ComponentCategories(CategorySet {
            categories: vec![BATTERY, -4],
        })),
    };
    assert_eq!(target_to_string(Some(&plain)), "BATTERY, category -4");
    let none = TargetComponents {
        components: Some(Components::ComponentIds(IdSet { ids: vec![] })),
    };
    assert_eq!(target_to_string(Some(&none)), "");
    assert_eq!(electrical_category_label(CHP), "CHP");
    assert_eq!(category_from_alias(&chars_of("EV_Charger")), Some(6));
    assert_eq!(category_from_alias(&chars_of("boat")), None);
}

#[test]
fn numbers_that_are_not_finite_become_null() {
    let json = JsonValue::Object(vec![entry("x", number(f64::INFINITY)), entry("y", number(1.5))]);
    let st = json_to_struct(&json).unwrap();
    match &st.fields[0].1 {
        WireValue::NumberValue(n) => assert_eq!(f64::from_bits(n.bits), f64::INFINITY),
        other => panic!("expected a number, got {other:?}"),
    }
    match struct_to_json(&st) {
        JsonValue::Object(entries) => {
            assert!(matches!(entries[0].1, JsonValue::Null));
            match &entries[1].1 {
                JsonValue::Number(n) => assert_eq!(f64::from_bits(n.bits), 1.5),
                other => panic!("expected a number, got {other:?}"),
            }
        }
        other => panic!("expected an object, got {other:?}"),
    }
    assert_eq!(
        json_to_struct(&JsonValue::Null).unwrap_err(),
        "payload must be a JSON object"
    );
}

#[test]
fn timestamps_hold_extreme_milliseconds() {
    let far = Timestamp {
        seconds: i64::MAX,
        nanos: 0,
    };
    assert_eq!(far.millis(), i64::MAX);
    let t = Timestamp::from_millis(-1);
    assert_eq!((t.seconds, t.nanos), (-1, 999_000_000));
    assert_eq!(t.millis(), -1);
    assert_eq!(Moment { nanos: -1 }.millis(), -1);
}

#[test]
fn shown_targets_are_taken_again() {
    let ids = TargetComponents {
        components: Some(Components::ComponentIds(IdSet {
            ids: vec![7, 10, 4_000_000_000_000],
        })),
    };
    let shown = target_to_string(Some(&ids));
    assert_eq!(shown, "7, 10, 4000000000000");
    match parse_target(&shown).unwrap().components.unwrap() {
        Components::ComponentIds(set) => assert_eq!(set.ids, vec![7, 10, 4_000_000_000_000]),
        other => panic!("expected ids, got {other:?}"),
    }

    let shown = target_to_string(Some(&parse_target("chp, ev-charger,grid,meter").unwrap()));
    assert_eq!(shown, "CHP, EV_CHARGER, GRID, METER");
    match parse_target(&shown).unwrap().components.unwrap() {
        Components::ComponentCategoriesTypes(set) => {
            let cats: Vec<i32> = set.categories.iter().map(|c| c.category).collect();
            assert_eq!(cats, vec![9, 6, GRID_CONNECTION_POINT, 2]);
        }
        other => panic!("expected categories, got {other:?}"),
    }
    assert_eq!(electrical_category_label(GRID_CONNECTION_POINT), "GRID_CONNECTION_POINT");
}

#[test]
fn removing_a_created_dispatch_restores_the_store() {
    let mut store = new_store();
    store.insert(7, dispatch(40, "kept"));
    let data = DispatchData {
        type_: "made".into(),
        ..blank()
    };
    let made = store.create(7, data, true, now()).unwrap();
    let id = made.dispatch_id();
    assert_eq!(store.list_mg(7).len(), 2);
    let gone = store.remove(7, id).unwrap();
    assert_eq!(gone.dispatch.data.unwrap().type_, "made");
    assert!(store.get(7, id).is_none());
    assert_eq!(store.list_mg(7).len(), 1);
    assert_eq!(store.alloc_id(), id + 1);
}

#[test]
fn the_latest_switch_counts() {
    let mut store = new_store();
    store.insert(7, dispatch(1, "x"));
    store.set_active(7, 1, false, now()).unwrap();
    store.set_active(7, 1, true, now()).unwrap();
    assert!(store.get(7, 1).unwrap().data.unwrap().is_active);
    store.set_active(7, 1, false, now()).unwrap();
    assert!(!store.get(7, 1).unwrap().data.unwrap().is_active);
}

#[test]
fn the_total_counts_creations_and_removals() {
    let mut store = new_store();
    assert!(store.create(7, blank(), false, now()).is_err());
    assert_eq!(store.total(), 0);
    let first = store.create(7, blank(), true, now()).unwrap().dispatch_id();
    let second = store.create(9, blank(), true, now()).unwrap().dispatch_id();
    assert_eq!(store.total(), 2);
    assert!(store.remove(7, second).is_none());
    assert_eq!(store.total(), 2);
    assert!(store.remove(7, first).is_some());
    assert_eq!(store.total(), 1);
}
