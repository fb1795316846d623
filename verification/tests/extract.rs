use muus_watcher::extract::extract_listings;
use chrono::TimeZone;

fn container(title: &str, path: &str, added: &str, updated: &str) -> String {
    format!(
        "<tr class=\"bg2\"><td class=\"tori_title\"><a href=\"{}\">{}</a></td>\
         <td title=\"Lis\u{e4}tty: {} Muokattu: {}\">meta</td></tr>",
        path, title, added, updated
    )
}

fn epoch(y: i32, mo: u32, d: u32, h: u32, mi: u32) -> i64 {
    chrono::Utc
        .with_ymd_and_hms(y, mo, d, h, mi, 0)
        .unwrap()
        .timestamp()
}

#[test]
fn page_without_containers_yields_empty() {
    let listings = extract_listings("<html><body>nothing here</body></html>", 1704067200);
    assert!(listings.is_empty());
}

#[test]
fn one_listing_is_extracted_whole() {
    let page = format!(
        "<html>{}</html>",
        container("Analog Rytm", "/tori/ilmoitus/12345", "15.03.2024 10:30", "16.03.2024 08:05")
    );
    let listings = extract_listings(&page, 1704067200);
    assert_eq!(listings.len(), 1);
    assert_eq!(listings[0].title, "Analog Rytm");
    assert_eq!(listings[0].url, "https://muusikoiden.net/tori/ilmoitus/12345");
    assert_eq!(listings[0].posted_at, epoch(2024, 3, 15, 10, 30));
    assert_eq!(listings[0].updated_at, epoch(2024, 3, 16, 8, 5));
}

#[test]
fn listings_follow_document_order() {
    let page = format!(
        "{}{}",
        container("First", "/a", "01.01.2024 00:00", "01.01.2024 00:00"),
        container("Second", "/b", "02.01.2024 00:00", "02.01.2024 00:00")
    );
    let listings = extract_listings(&page, 1704067200);
    assert_eq!(listings.len(), 2);
    assert_eq!(listings[0].title, "First");
    assert_eq!(listings[1].title, "Second");
}

#[test]
fn missing_dates_degrade_to_extraction_time() {
    let now = 1704067200;
    let page = "<tr class=\"bg2\"><td class=\"tori_title\">\
                <a href=\"/tori/ilmoitus/9\">Mixer</a></td></tr>";
    let listings = extract_listings(page, now);
    assert_eq!(listings.len(), 1);
    assert_eq!(listings[0].posted_at, now);
    assert_eq!(listings[0].updated_at, now);
}

#[test]
fn impossible_date_degrades_to_extraction_time() {
    let now = 1704067200;
    let page = container("Pedal", "/p", "31.02.2024 10:00", "15.03.2024 10:30");
    let listings = extract_listings(&page, now);
    assert_eq!(listings.len(), 1);
    assert_eq!(listings[0].posted_at, now);
    assert_eq!(listings[0].updated_at, epoch(2024, 3, 15, 10, 30));
}

#[test]
fn container_without_title_anchor_is_skipped() {
    let page = format!(
        "<tr class=\"bg2\"><td>no title here</td></tr>{}",
        container("Kept", "/k", "15.03.2024 10:30", "15.03.2024 10:30")
    );
    let listings = extract_listings(&page, 1704067200);
    assert_eq!(listings.len(), 1);
    assert_eq!(listings[0].title, "Kept");
}

#[test]
fn empty_link_target_skips_the_container() {
    let page = "<tr class=\"bg2\"><td class=\"tori_title\"><a href=\"\">Gone</a></td></tr>";
    let listings = extract_listings(page, 1704067200);
    assert!(listings.is_empty());
}
