use switchyard::microgrids::{
    default_microgrid_name, microgrid_stub, stub_file_name, with_microgrid, MicrogridDef,
    MicrogridEntry, Microgrids, DEFAULT_GRPC_PORT, DEFAULT_MICROGRID_ID,
};
use switchyard::site::MicrogridSite;

fn entry(id: u64, port: u16) -> MicrogridEntry<MicrogridSite> {
    MicrogridEntry {
        def: MicrogridDef {
            id,
            name: format!("mg-{id}"),
            grpc_port: port,
            tso: None,
        },
        site: MicrogridSite::new(),
    }
}

#[test]
fn next_free_port_increments_by_10_skipping_gaps() {
    let mut reg = Microgrids::new();
    assert_eq!(reg.next_free_port(), DEFAULT_GRPC_PORT);
    reg.insert(entry(2200, 8800));
    assert_eq!(reg.next_free_port(), 8810);
    reg.insert(entry(2201, 8810));
    assert_eq!(reg.next_free_port(), 8820);
    // 8830 leaves a gap; the next slot is still 8820.
    reg.insert(entry(2202, 8830));
    assert_eq!(reg.next_free_port(), 8820);
}

#[test]
fn next_free_id_starts_at_default_and_increments() {
    let mut reg = Microgrids::new();
    assert_eq!(reg.next_free_id(), DEFAULT_MICROGRID_ID);
    reg.insert(entry(DEFAULT_MICROGRID_ID, 8800));
    assert_eq!(reg.next_free_id(), DEFAULT_MICROGRID_ID + 1);
}

#[test]
fn snapshot_is_ascending_by_id() {
    let mut reg = Microgrids::new();
    for id in [2202u64, 2200, 2201] {
        reg.insert(entry(id, 8800 + (id as u16 - 2200) * 10));
    }
    let view = reg.snapshot(|site: &MicrogridSite| site.components().len());
    assert_eq!(
        view.iter().map(|v| v.id).collect::<Vec<_>>(),
        vec![2200, 2201, 2202]
    );
    assert_eq!((view[1].name.as_str(), view[1].grpc_port), ("mg-2201", 8810));
    assert_eq!(view[1].component_count, 0);
}

#[test]
fn creating_trims_the_name_and_takes_what_is_free() {
    let mut reg = Microgrids::new();
    reg.insert(entry(2200, 8800));
    let def = reg
        .create("  harbour ", Some("TN".to_string()), MicrogridSite::new())
        .unwrap();
    assert_eq!((def.id, def.name.as_str(), def.grpc_port), (2201, "harbour", 8810));
    assert_eq!(reg.get(2201).unwrap().def.tso.as_deref(), Some("TN"));
    let err = reg.create(" \t", None, MicrogridSite::new()).unwrap_err();
    assert_eq!(err, "name must be non-empty");
    assert!(!reg.contains(2202));
    assert!(reg.remove(2201).is_some());
    assert!(reg.remove(2201).is_none());
}

#[test]
fn the_current_microgrid_falls_back_to_the_first() {
    let mut reg = Microgrids::new();
    assert_eq!(reg.resolve(Some(7)), None);
    reg.insert(entry(2201, 8810));
    reg.insert(entry(2200, 8800));
    assert_eq!(reg.resolve(Some(2201)), Some(2201));
    assert_eq!(reg.resolve(Some(7)), Some(2200));
    assert_eq!(reg.resolve(None), Some(2200));
}

#[test]
fn a_scope_ends_where_it_began() {
    let mut current = Some(1);
    let seen = with_microgrid(&mut current, 2, |c| *c);
    assert_eq!(seen, Some(2));
    assert_eq!(current, Some(1));
    assert_eq!(default_microgrid_name(), "default");
}

#[test]
fn stubs_escape_names_and_zones() {
    let text = microgrid_stub(2201, "a \"b\" \\c", 8810, Some("T\"N"));
    assert_eq!(
        text,
        ";; Runtime-created microgrid (id 2201). Edit by hand or via\n;; the UI \u{2014} UI edits land in config.2201.overrides.lisp next\n;; to this file.\n\n(make-microgrid\n :id 2201\n :name \"a \\\"b\\\" \\\\c\"\n :grpc-port 8810 :tso \"T\\\"N\"\n :topology\n (lambda ()\n   (load-overrides)))\n"
    );
    assert!(!microgrid_stub(1, "x", 2, None).contains(":tso"));
    assert!(!microgrid_stub(1, "x", 2, Some("")).contains(":tso"));
    assert_eq!(stub_file_name(2201), "config.2201.lisp");
}

#[test]
fn microgrids_created_in_turn_differ() {
    let mut m: Microgrids<MicrogridSite> = Microgrids::new();
    let a = m.create("a", None, MicrogridSite::new()).unwrap();
    let b = m.create("b", None, MicrogridSite::new()).unwrap();
    let c = m.create("c", None, MicrogridSite::new()).unwrap();
    assert_eq!((a.id, b.id, c.id), (2200, 2201, 2202));
    assert_eq!((a.grpc_port, b.grpc_port, c.grpc_port), (8800, 8810, 8820));
}
