use event_sync::errors::SyncError;
use event_sync::pager::{stream_items, stream_pages, FetchReply, PagerState};

fn page(items: &[u32], next: Option<&str>) -> FetchReply<u32> {
    Ok((items.to_vec(), next.map(|s| s.to_string())))
}

fn failure(msg: &str) -> FetchReply<u32> {
    Err(SyncError::Transport { context: msg.to_string() })
}

#[test]
fn yields_all_pages_in_order() {
    let script = vec![
        page(&[1, 2], Some("a")),
        page(&[3], Some("b")),
        page(&[4, 5], None),
    ];
    let out = stream_items(script, None);
    assert_eq!(out.items, vec![1, 2, 3, 4, 5]);
    assert_eq!(out.fetches, 3);
    assert!(out.error.is_none());
}

#[test]
fn stops_after_cursorless_page_even_with_more_script() {
    let script = vec![page(&[1], None), page(&[2], None)];
    let out = stream_items(script, None);
    assert_eq!(out.items, vec![1]);
    assert_eq!(out.fetches, 1);
    assert!(out.error.is_none());
}

#[test]
fn empty_script_yields_nothing() {
    let script: Vec<FetchReply<u32>> = vec![];
    let out = stream_items(script, None);
    assert!(out.items.is_empty());
    assert_eq!(out.fetches, 0);
    assert!(out.error.is_none());
}

#[test]
fn error_on_first_fetch_yields_only_the_error() {
    let script = vec![failure("boom"), page(&[1], None)];
    let out = stream_items(script, None);
    assert!(out.items.is_empty());
    assert_eq!(out.fetches, 1);
    assert_eq!(
        out.error,
        Some(SyncError::Transport { context: "boom".to_string() })
    );
}

#[test]
fn error_mid_stream_yields_prior_pages_then_error() {
    let script = vec![
        page(&[1, 2], Some("a")),
        page(&[3], Some("b")),
        failure("lost connection"),
        page(&[9], None),
    ];
    let out = stream_items(script, None);
    assert_eq!(out.items, vec![1, 2, 3]);
    assert_eq!(out.fetches, 3);
    assert_eq!(
        out.error,
        Some(SyncError::Transport { context: "lost connection".to_string() })
    );
}

#[test]
fn limit_zero_causes_no_fetch() {
    let script = vec![page(&[1, 2], Some("a")), page(&[3], None)];
    let out = stream_items(script, Some(0));
    assert!(out.items.is_empty());
    assert_eq!(out.fetches, 0);
    assert!(out.error.is_none());
}

#[test]
fn limit_mid_page_truncates_and_stops_fetching() {
    let script = vec![
        page(&[1, 2], Some("a")),
        page(&[3, 4], Some("b")),
        page(&[5, 6], None),
    ];
    let out = stream_items(script, Some(3));
    assert_eq!(out.items, vec![1, 2, 3]);
    // ceil(3 / 2) = 2 fetches for pages of two items
    assert_eq!(out.fetches, 2);
    assert!(out.error.is_none());
}

#[test]
fn limit_at_page_boundary_fetches_no_further_page() {
    let script = vec![page(&[1, 2], Some("a")), page(&[3, 4], Some("b"))];
    let out = stream_items(script, Some(2));
    assert_eq!(out.items, vec![1, 2]);
    assert_eq!(out.fetches, 1);
    assert!(out.error.is_none());
}

#[test]
fn limit_larger_than_stream_yields_everything() {
    let script = vec![page(&[1], Some("a")), page(&[2], None)];
    let out = stream_items(script, Some(50));
    assert_eq!(out.items, vec![1, 2]);
    assert_eq!(out.fetches, 2);
    assert!(out.error.is_none());
}

#[test]
fn stream_pages_yields_whole_pages_in_order() {
    let script = vec![page(&[1, 2], Some("a")), page(&[3], None)];
    let out = stream_pages(script);
    assert_eq!(out.pages, vec![vec![1, 2], vec![3]]);
    assert_eq!(out.fetches, 2);
    assert!(out.error.is_none());
}

#[test]
fn stream_pages_ends_on_error_after_prior_pages() {
    let script = vec![page(&[1], Some("a")), failure("gone"), page(&[2], None)];
    let out = stream_pages(script);
    assert_eq!(out.pages, vec![vec![1]]);
    assert_eq!(out.fetches, 2);
    assert_eq!(
        out.error,
        Some(SyncError::Transport { context: "gone".to_string() })
    );
}

#[test]
fn pager_state_walks_going_to_done() {
    let s = PagerState::start();
    assert!(s.wants_fetch());
    let s = s.advance(Some("cursor-1".to_string()));
    assert!(s.wants_fetch());
    match &s {
        PagerState::Going(Some(t)) => assert_eq!(t, "cursor-1"),
        other => panic!("unexpected state: {:?}", other),
    }
    let s = s.advance(None);
    assert!(!s.wants_fetch());
    assert!(matches!(s, PagerState::Done));
}

#[test]
fn pager_state_fail_is_terminal() {
    let s = PagerState::start();
    let s = s.fail();
    assert!(!s.wants_fetch());
    assert!(matches!(s, PagerState::Failed));
}
