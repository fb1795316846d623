use muus_watcher::pagination::{
    next_href_exec, parse_params, FetchRequest, RunState, SearchSession,
};

fn listing_row(title: &str, path: &str) -> String {
    format!(
        "<tr class=\"bg2\"><td class=\"tori_title\"><a href=\"{}\">{}</a></td>\
         <td title=\"Lis\u{e4}tty: 15.03.2024 10:30 Muokattu: 15.03.2024 10:30\"></td></tr>",
        path, title
    )
}

fn page_with_next(rows: &str, next_query: &str) -> String {
    format!(
        "{}<a href=\"/tori/haku.php?{}\">seuraava</a>",
        rows, next_query
    )
}

#[test]
fn next_link_target_is_found_verbatim() {
    let page = "rows...<a href=\"/tori/haku.php?page=2\">seuraava</a>...";
    assert_eq!(next_href_exec(page).unwrap(), "/tori/haku.php?page=2");
    assert!(next_href_exec("no link here, <a href=\"/x\">muu</a>").is_none());
}

#[test]
fn query_segments_without_a_value_are_dropped() {
    let params = parse_params("a=1&amp;plain&amp;checksum=zz&amp;b=two=three");
    let pairs: Vec<(String, String)> = params.into_iter().map(|p| (p.key, p.value)).collect();
    assert_eq!(
        pairs,
        vec![
            ("a".to_string(), "1".to_string()),
            // the value keeps everything after the first separator
            ("b".to_string(), "two=three".to_string()),
        ]
    );
}

#[test]
fn first_request_carries_the_keyword() {
    let session = SearchSession::new("elektron");
    match session.next_request() {
        Some(FetchRequest::First { keyword }) => assert_eq!(keyword, "elektron"),
        other => panic!("expected a first-page request, got {:?}", other),
    }
}

#[test]
fn continuation_drops_the_checksum() {
    let mut session = SearchSession::new("elektron");
    let page = page_with_next(
        &listing_row("One", "/a"),
        "keyword=elektron&amp;page=2&amp;checksum=abc123&amp;order=new",
    );
    session.on_page(&page, 1704067200);
    assert!(matches!(session.state, RunState::Fetching));
    match session.next_request() {
        Some(FetchRequest::Continuation { params }) => {
            let pairs: Vec<(String, String)> =
                params.into_iter().map(|p| (p.key, p.value)).collect();
            assert_eq!(
                pairs,
                vec![
                    ("keyword".to_string(), "elektron".to_string()),
                    ("page".to_string(), "2".to_string()),
                    ("order".to_string(), "new".to_string()),
                ]
            );
        },
        other => panic!("expected a continuation request, got {:?}", other),
    }
}

#[test]
fn pagination_stops_at_page_without_next_link() {
    // a long chain: every page links onward except the last one
    let mut session = SearchSession::new("elektron");
    for n in 0..25 {
        assert!(session.next_request().is_some());
        let page = page_with_next(&listing_row(&format!("Item{}", n), "/x"), "page=2");
        session.on_page(&page, 1704067200);
        assert!(matches!(session.state, RunState::Fetching));
    }
    let last = listing_row("Last", "/last");
    session.on_page(&last, 1704067200);
    assert!(matches!(session.state, RunState::Done));
    assert!(session.next_request().is_none());
    let listings = session.into_result().unwrap();
    assert_eq!(listings.len(), 26);
}

#[test]
fn results_come_out_oldest_first() {
    let mut session = SearchSession::new("elektron");
    let page1 = page_with_next(
        &format!("{}{}", listing_row("Newest", "/1"), listing_row("Newer", "/2")),
        "page=2",
    );
    session.on_page(&page1, 1704067200);
    let page2 = listing_row("Oldest", "/3");
    session.on_page(&page2, 1704067200);
    let listings = session.into_result().unwrap();
    let titles: Vec<&str> = listings.iter().map(|l| l.title.as_str()).collect();
    assert_eq!(titles, vec!["Oldest", "Newer", "Newest"]);
}

#[test]
fn failed_first_fetch_is_an_error_with_nothing_kept() {
    let mut session = SearchSession::new("elektron");
    session.on_fetch_error();
    assert!(matches!(session.state, RunState::Failed));
    assert!(session.next_request().is_none());
    assert!(session.into_result().is_err());
}

#[test]
fn failure_after_a_page_keeps_what_was_gathered() {
    let mut session = SearchSession::new("elektron");
    let page = page_with_next(&listing_row("Kept", "/k"), "page=2");
    session.on_page(&page, 1704067200);
    session.on_fetch_error();
    let listings = session.into_result().unwrap();
    assert_eq!(listings.len(), 1);
    assert_eq!(listings[0].title, "Kept");
}

#[test]
fn link_without_query_yields_no_parameters() {
    let mut session = SearchSession::new("elektron");
    let page = format!("{}<a href=\"/tori/haku.php\">seuraava</a>", listing_row("X", "/x"));
    session.on_page(&page, 1704067200);
    assert!(matches!(session.state, RunState::Fetching));
    match session.next_request() {
        Some(FetchRequest::Continuation { params }) => assert!(params.is_empty()),
        other => panic!("expected a continuation request, got {:?}", other),
    }
}
