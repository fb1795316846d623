use muus_watcher::store::{QueryStore, StoreError, INITIAL_LAST_EXECUTED_AT};
use chrono::TimeZone;

#[test]
fn initial_epoch_matches_calendar() {
    let dt = chrono::Utc.with_ymd_and_hms(2000, 1, 1, 0, 0, 0).unwrap();
    assert_eq!(INITIAL_LAST_EXECUTED_AT, dt.timestamp());
}

#[test]
fn first_query_gets_id_zero() {
    let mut store = QueryStore::new();
    assert!(store.add_subscriber(1, "s1"));
    assert_eq!(store.add_query(1, "elektron"), Ok(0));
}

#[test]
fn removed_id_zero_is_reused() {
    let mut store = QueryStore::new();
    store.add_subscriber(1, "s1");
    assert_eq!(store.add_query(1, "first"), Ok(0));
    assert_eq!(store.add_query(1, "second"), Ok(1));
    let removed = store.remove_query(1, 0);
    assert_eq!(removed.unwrap().text, "first");
    assert_eq!(store.add_query(1, "third"), Ok(0));
    assert_eq!(store.add_query(1, "fourth"), Ok(2));
}

#[test]
fn empty_query_text_is_rejected() {
    let mut store = QueryStore::new();
    store.add_subscriber(1, "s1");
    assert_eq!(store.add_query(1, ""), Err(StoreError::EmptyQueryText));
    assert!(store.queries_snapshot(1).unwrap().is_empty());
}

#[test]
fn duplicate_query_text_is_rejected() {
    let mut store = QueryStore::new();
    store.add_subscriber(1, "s1");
    assert_eq!(store.add_query(1, "drums"), Ok(0));
    assert_eq!(store.add_query(1, "drums"), Err(StoreError::DuplicateQuery));
    assert_eq!(store.queries_snapshot(1).unwrap().len(), 1);
}

#[test]
fn add_query_for_unknown_subscriber_is_stale() {
    let mut store = QueryStore::new();
    assert_eq!(store.add_query(7, "drums"), Err(StoreError::StaleReference));
}

#[test]
fn new_query_is_immediately_due() {
    let mut store = QueryStore::new();
    store.add_subscriber(1, "s1");
    store.add_query(1, "elektron").unwrap();
    // now is 2024-01-01T00:00:00Z, far past the initial timestamp
    let now = 1704067200;
    let tasks = store.list_due_queries(now, 3600);
    assert_eq!(tasks.len(), 1);
    assert_eq!(tasks[0].subscriber_id, 1);
    assert_eq!(tasks[0].query_id, 0);
    assert_eq!(tasks[0].query_text, "elektron");
    assert_eq!(tasks[0].due_at, now);
}

#[test]
fn list_due_queries_is_idempotent() {
    let mut store = QueryStore::new();
    store.add_subscriber(1, "s1");
    store.add_query(1, "elektron").unwrap();
    store.add_subscriber(2, "s2");
    store.add_query(2, "moog").unwrap();
    store.record_success(2, 0, 1704067200);
    let now = 1704067200;
    let a = store.list_due_queries(now, 3600);
    let b = store.list_due_queries(now, 3600);
    assert_eq!(a.len(), b.len());
    for (x, y) in a.iter().zip(b.iter()) {
        assert_eq!(x.subscriber_id, y.subscriber_id);
        assert_eq!(x.query_id, y.query_id);
        assert_eq!(x.query_text, y.query_text);
        assert_eq!(x.due_at, y.due_at);
    }
}

#[test]
fn cooldown_holds_query_back() {
    let mut store = QueryStore::new();
    store.add_subscriber(1, "s1");
    store.add_query(1, "elektron").unwrap();
    let now = 1704067200;
    assert!(store.record_success(1, 0, now));
    // not due again within the cooldown, due once it has elapsed
    assert!(store.list_due_queries(now + 3599, 3600).is_empty());
    assert_eq!(store.list_due_queries(now + 3600, 3600).len(), 1);
}

#[test]
fn record_success_touches_only_its_query() {
    let mut store = QueryStore::new();
    store.add_subscriber(1, "s1");
    store.add_query(1, "one").unwrap();
    store.add_query(1, "two").unwrap();
    store.record_success(1, 1, 1704067200);
    let qs = store.queries_snapshot(1).unwrap();
    assert_eq!(qs[0].last_executed_at, INITIAL_LAST_EXECUTED_AT);
    assert_eq!(qs[1].last_executed_at, 1704067200);
}

#[test]
fn record_success_after_removal_is_a_noop() {
    let mut store = QueryStore::new();
    store.add_subscriber(1, "s1");
    store.add_query(1, "elektron").unwrap();
    assert!(store.remove_query(1, 0).is_some());
    // the race from an in-flight scrape: the success report finds no query
    assert!(!store.record_success(1, 0, 1704067200));
    assert!(store.queries_snapshot(1).unwrap().is_empty());
}

#[test]
fn clear_queries_empties_one_subscriber() {
    let mut store = QueryStore::new();
    store.add_subscriber(1, "s1");
    store.add_subscriber(2, "s2");
    store.add_query(1, "one").unwrap();
    store.add_query(2, "two").unwrap();
    assert!(store.clear_queries(1));
    assert!(store.queries_snapshot(1).unwrap().is_empty());
    assert_eq!(store.queries_snapshot(2).unwrap().len(), 1);
}

#[test]
fn remove_subscriber_cascades() {
    let mut store = QueryStore::new();
    store.add_subscriber(1, "s1");
    store.add_query(1, "one").unwrap();
    assert!(store.remove_subscriber(1));
    assert!(store.queries_snapshot(1).is_none());
    assert!(!store.remove_subscriber(1));
}

#[test]
fn second_registration_is_refused() {
    let mut store = QueryStore::new();
    assert!(store.add_subscriber(1, "s1"));
    assert!(!store.add_subscriber(1, "s1"));
}
