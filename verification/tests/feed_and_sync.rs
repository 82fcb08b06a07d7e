use rss_rust::EntryStore;
use rss_rust::FetchError;
use rss_rust::Rss;
use rss_rust::RssEntity;
use rss_rust::RssParsingError;
use rss_rust::SubscriptionStore;
use rss_rust::search;
use rss_rust::sync::SyncOutcome;
use rss_rust::sync::sync;

fn feed_two_items() -> String {
    let mut text = String::from("<rss><channel>");
    text.push_str("<title>Example Feed</title>");
    text.push_str("<description>News about examples</description>");
    text.push_str("<item><title>Alpha</title><link>https://example.org/a</link>");
    text.push_str("<publish_date>Tue, 10 Jun 2003 04:00:00 GMT</publish_date></item>");
    text.push_str("<item><title>Beta</title><link>https://example.org/b</link></item>");
    text.push_str("</channel></rss>");
    text
}

#[test]
fn parse_reads_channel_and_items() {
    let mut rss = Rss::parse(feed_two_items()).expect("well-formed feed must parse");
    let items = rss.get_items();
    assert_eq!(items.len(), 2);
    assert_eq!(items[0].title, "Alpha");
    assert_eq!(items[0].link, "https://example.org/a");
    assert_eq!(items[1].title, "Beta");
    assert_eq!(items[1].link, "https://example.org/b");
}

#[test]
fn parse_without_channel_is_a_structural_error() {
    let r = Rss::parse("<rss><chan>nothing here</chan></rss>".to_string());
    assert!(matches!(r, Err(RssParsingError::SerdeError)));
    let empty = Rss::parse(String::new());
    assert!(matches!(empty, Err(RssParsingError::SerdeError)));
}

#[test]
fn missing_publish_date_parses_as_empty_string() {
    let text = "<channel><item><title>No Date</title></item></channel>".to_string();
    let mut rss = Rss::parse(text).expect("missing optional fields must not fail the parse");
    let items = rss.get_items();
    assert_eq!(items.len(), 1);
    assert_eq!(items[0].title, "No Date");
    assert_eq!(items[0].link, "");
    assert_eq!(items[0].publish_date, "");
}

#[test]
fn rfc2822_dates_are_normalized() {
    let mut rss = Rss::parse(feed_two_items()).expect("feed must parse");
    let items = rss.get_items();
    assert_eq!(items[0].publish_date, "2003-06-10 04:00:00");
}

#[test]
fn unparsable_dates_become_empty() {
    let mut text = String::from("<channel><item><title>T</title>");
    text.push_str("<publish_date>sometime last week</publish_date></item></channel>");
    let mut rss = Rss::parse(text).expect("feed must parse");
    let items = rss.get_items();
    assert_eq!(items[0].publish_date, "");
}

#[test]
fn empty_channel_has_no_items() {
    let mut rss = Rss::parse("<channel></channel>".to_string()).expect("must parse");
    assert!(rss.get_items().is_empty());
}

#[test]
fn sync_ingests_fetched_feeds() {
    let mut store = EntryStore::new();
    let feeds = vec![Ok(feed_two_items())];
    let report = sync(&mut store, &feeds);
    assert_eq!(report, vec![SyncOutcome::Synced { inserted: 2, duplicates: 0 }]);
    assert_eq!(store.count(), 2);
    let alpha = search(&store, "Alpha", 1, 10);
    assert_eq!(alpha.len(), 1);
    assert_eq!(alpha[0].publish_date, "2003-06-10 04:00:00");
}

#[test]
fn sync_of_an_unchanged_feed_is_idempotent() {
    let mut store = EntryStore::new();
    let feeds = vec![Ok(feed_two_items())];
    sync(&mut store, &feeds);
    let again = sync(&mut store, &feeds);
    assert_eq!(again, vec![SyncOutcome::Synced { inserted: 0, duplicates: 2 }]);
    assert_eq!(store.count(), 2);
}

#[test]
fn one_failed_fetch_does_not_stop_the_others() {
    let mut store = EntryStore::new();
    let feeds = vec![
        Err(FetchError::Transport),
        Ok(feed_two_items()),
        Err(FetchError::Status),
    ];
    let report = sync(&mut store, &feeds);
    assert_eq!(report.len(), 3);
    assert_eq!(report[0], SyncOutcome::FetchFailed(FetchError::Transport));
    assert_eq!(report[1], SyncOutcome::Synced { inserted: 2, duplicates: 0 });
    assert_eq!(report[2], SyncOutcome::FetchFailed(FetchError::Status));
    assert_eq!(store.count(), 2);
}

#[test]
fn an_unparsable_feed_is_reported_and_isolated() {
    let mut store = EntryStore::new();
    let feeds = vec![
        Ok("not xml at all".to_string()),
        Ok(feed_two_items()),
    ];
    let report = sync(&mut store, &feeds);
    assert_eq!(report[0], SyncOutcome::ParseFailed);
    assert_eq!(report[1], SyncOutcome::Synced { inserted: 2, duplicates: 0 });
    assert_eq!(store.count(), 2);
}

#[test]
fn subscriptions_get_sequential_ids() {
    let mut subs = SubscriptionStore::new();
    let first = subs.save("https://example.org/feed.xml".to_string(), "news".to_string());
    assert_eq!(first.id, 1);
    assert_eq!(first.rss_url, "https://example.org/feed.xml");
    assert_eq!(first.profile, "news");
    let second = subs.save("https://example.net/rss".to_string(), "tech".to_string());
    assert_eq!(second.id, 2);
    assert_eq!(subs.count(), 2);
}

#[test]
fn readding_a_url_makes_a_second_row() {
    let mut subs = SubscriptionStore::new();
    subs.save("https://example.org/feed.xml".to_string(), "a".to_string());
    subs.save("https://example.org/feed.xml".to_string(), "b".to_string());
    let all: Vec<RssEntity> = subs.get_many();
    assert_eq!(all.len(), 2);
    assert_eq!(all[0].rss_url, all[1].rss_url);
    assert_eq!(all[0].profile, "a");
    assert_eq!(all[1].profile, "b");
}
