use muus_watcher::pagination::{FetchRequest, SearchSession};
use muus_watcher::scheduler::apply_task_outcome;
use muus_watcher::store::{QueryStore, INITIAL_LAST_EXECUTED_AT};

fn listing_row(title: &str, path: &str) -> String {
    format!(
        "<tr class=\"bg2\"><td class=\"tori_title\"><a href=\"{}\">{}</a></td>\
         <td title=\"Lis\u{e4}tty: 15.03.2024 10:30 Muokattu: 15.03.2024 10:30\"></td></tr>",
        path, title
    )
}

/// One scheduler cycle against a mock fetcher: the page chain stands in for
/// the remote site, keyed by request number.
fn run_one_cycle(
    store: &mut QueryStore,
    now: i64,
    cooldown: i64,
    mut fetch: impl FnMut(&FetchRequest) -> Result<String, ()>,
) -> Vec<muus_watcher::scheduler::Notification> {
    let mut delivered = Vec::new();
    let tasks = store.list_due_queries(now, cooldown);
    for task in tasks {
        let mut session = SearchSession::new(&task.query_text);
        while let Some(request) = session.next_request() {
            match fetch(&request) {
                Ok(body) => session.on_page(&body, now),
                Err(()) => session.on_fetch_error(),
            }
        }
        let outcome = session.into_result();
        let mut notes = apply_task_outcome(store, &task, outcome);
        delivered.append(&mut notes);
    }
    delivered
}

#[test]
fn cycle_with_two_listings_notifies_twice() {
    let mut store = QueryStore::new();
    assert!(store.add_subscriber(10, "S1"));
    assert_eq!(store.add_query(10, "elektron"), Ok(0));

    let now = 1704067200;
    let mut fetches = 0;
    let delivered = run_one_cycle(&mut store, now, 3600, |request| {
        fetches += 1;
        match request {
            FetchRequest::First { keyword } => {
                assert_eq!(keyword, "elektron");
                // one page, two listings, no next link
                Ok(format!(
                    "{}{}",
                    listing_row("Digitakt", "/a"),
                    listing_row("Octatrack", "/b")
                ))
            },
            FetchRequest::Continuation { .. } => panic!("no continuation expected"),
        }
    });

    assert_eq!(fetches, 1);
    // chronological order: the page's lower row is the older listing
    assert_eq!(delivered.len(), 2);
    assert_eq!(delivered[0].subscriber_id, 10);
    assert_eq!(delivered[0].query_text, "elektron");
    assert_eq!(delivered[0].listing.title, "Octatrack");
    assert_eq!(delivered[1].listing.title, "Digitakt");
    // the success was recorded exactly once, at the cycle's instant
    let qs = store.queries_snapshot(10).unwrap();
    assert_eq!(qs[0].last_executed_at, now);
    // and the query is no longer due within the cooldown
    assert!(store.list_due_queries(now + 10, 3600).is_empty());
}

#[test]
fn failed_first_fetch_leaves_query_due() {
    let mut store = QueryStore::new();
    store.add_subscriber(10, "S1");
    store.add_query(10, "elektron").unwrap();

    let now = 1704067200;
    let delivered = run_one_cycle(&mut store, now, 3600, |_| Err(()));

    assert!(delivered.is_empty());
    // recordSuccess was not called: the timestamp still predates every cooldown
    let qs = store.queries_snapshot(10).unwrap();
    assert_eq!(qs[0].last_executed_at, INITIAL_LAST_EXECUTED_AT);
    // so the query reappears in the next cycle
    assert_eq!(store.list_due_queries(now + 60, 3600).len(), 1);
}

#[test]
fn success_report_racing_a_removal_is_harmless() {
    let mut store = QueryStore::new();
    store.add_subscriber(10, "S1");
    store.add_query(10, "elektron").unwrap();
    let now = 1704067200;
    let tasks = store.list_due_queries(now, 3600);
    assert_eq!(tasks.len(), 1);

    // the command interface removes the query while its scrape is in flight
    assert!(store.remove_query(10, 0).is_some());

    let outcome = Ok(Vec::new());
    let notes = apply_task_outcome(&mut store, &tasks[0], outcome);
    assert!(notes.is_empty());
    assert!(store.queries_snapshot(10).unwrap().is_empty());
}

#[test]
fn one_failing_query_does_not_block_the_rest() {
    let mut store = QueryStore::new();
    store.add_subscriber(10, "S1");
    store.add_query(10, "broken").unwrap();
    store.add_query(10, "working").unwrap();

    let now = 1704067200;
    let delivered = run_one_cycle(&mut store, now, 3600, |request| match request {
        FetchRequest::First { keyword } if keyword == "broken" => Err(()),
        FetchRequest::First { .. } => Ok(listing_row("Found", "/f")),
        FetchRequest::Continuation { .. } => panic!("no continuation expected"),
    });

    assert_eq!(delivered.len(), 1);
    assert_eq!(delivered[0].query_text, "working");
    let qs = store.queries_snapshot(10).unwrap();
    assert_eq!(qs[0].last_executed_at, INITIAL_LAST_EXECUTED_AT);
    assert_eq!(qs[1].last_executed_at, now);
}
