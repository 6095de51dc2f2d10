use event_sync::event::{make_import_event, sync_key_string, Event, Props};

#[test]
fn sync_key_is_the_reserved_property_name() {
    assert_eq!(sync_key_string(), "event-sync-src-id");
}

#[test]
fn empty_event_has_nothing_set() {
    let e = Event::empty();
    assert!(e.id.is_none());
    assert!(e.summary.is_none());
    assert!(e.location.is_none());
    assert!(e.start.is_none());
    assert!(e.end.is_none());
    assert!(e.color_id.is_none());
    assert!(e.ical_uid.is_none());
    let key = "anything".to_string();
    assert!(e.shared_properties.get(&key).is_none());
}

#[test]
fn props_get_finds_inserted_value() {
    let mut p = Props::new();
    p.insert("colour".to_string(), "blue".to_string());
    p.insert("shape".to_string(), "round".to_string());
    assert_eq!(p.get(&"colour".to_string()).map(String::as_str), Some("blue"));
    assert_eq!(p.get(&"shape".to_string()).map(String::as_str), Some("round"));
    assert!(p.get(&"size".to_string()).is_none());
}

#[test]
fn props_insert_replaces_earlier_binding() {
    let mut p = Props::new();
    p.insert("colour".to_string(), "blue".to_string());
    p.insert("colour".to_string(), "green".to_string());
    assert_eq!(p.get(&"colour".to_string()).map(String::as_str), Some("green"));
}

#[test]
fn props_entries_expose_lookup_order() {
    let mut p = Props::new();
    p.insert("a".to_string(), "1".to_string());
    p.insert("b".to_string(), "2".to_string());
    let entries = p.entries();
    // the most recent insertion stands in front
    assert_eq!(entries[0].0, "b");
    assert_eq!(entries[1].0, "a");
}

#[test]
fn import_event_carries_uid_and_span_only() {
    let e = make_import_event("uid-123".to_string(), 1_700_000_000, 1_700_003_600);
    assert_eq!(e.ical_uid.as_deref(), Some("uid-123"));
    assert_eq!(e.start, Some(1_700_000_000));
    assert_eq!(e.end, Some(1_700_003_600));
    assert!(e.id.is_none());
    assert!(e.summary.is_none());
    assert!(e.location.is_none());
    assert!(e.color_id.is_none());
    let key = sync_key_string();
    assert!(e.shared_properties.get(&key).is_none());
}
