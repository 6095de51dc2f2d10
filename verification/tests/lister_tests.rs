use event_sync::lister::{build_list_query, maybe_update_req, ListFilters};

#[test]
fn maybe_update_req_applies_when_present() {
    let r = maybe_update_req(10u64, Some(5u64), |a: u64, b: u64| a + b);
    assert_eq!(r, 15);
}

#[test]
fn maybe_update_req_keeps_request_when_absent() {
    let r = maybe_update_req(10u64, None, |a: u64, b: u64| a + b);
    assert_eq!(r, 10);
}

#[test]
fn first_page_query_has_no_cursor() {
    let filters = ListFilters { updated_after: None, starting_after: None };
    let q = build_list_query("primary".to_string(), None, &filters);
    assert_eq!(q.calendar, "primary");
    assert!(q.page_token.is_none());
    assert!(q.updated_min.is_none());
    assert!(q.time_min.is_none());
}

#[test]
fn later_page_query_carries_the_cursor_through() {
    let filters = ListFilters { updated_after: None, starting_after: None };
    let q = build_list_query(
        "primary".to_string(),
        Some("cursor-2".to_string()),
        &filters,
    );
    assert_eq!(q.page_token.as_deref(), Some("cursor-2"));
}

#[test]
fn configured_filters_pass_through_unchanged() {
    let filters = ListFilters {
        updated_after: Some(1_600_000_000),
        starting_after: Some(1_650_000_000),
    };
    let q = build_list_query("work".to_string(), Some("c".to_string()), &filters);
    assert_eq!(q.calendar, "work");
    assert_eq!(q.page_token.as_deref(), Some("c"));
    assert_eq!(q.updated_min, Some(1_600_000_000));
    assert_eq!(q.time_min, Some(1_650_000_000));
}

#[test]
fn each_filter_is_independent() {
    let filters = ListFilters { updated_after: Some(7), starting_after: None };
    let q = build_list_query("x".to_string(), None, &filters);
    assert_eq!(q.updated_min, Some(7));
    assert!(q.time_min.is_none());
}
