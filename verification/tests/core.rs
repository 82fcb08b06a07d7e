use rss_rust::EntryStore;
use rss_rust::GetManyOptions;
use rss_rust::InsertOutcome;
use rss_rust::RssEntry;
use rss_rust::fingerprint::fingerprint;
use rss_rust::search;

fn entry(title: &str) -> RssEntry {
    RssEntry {
        title: title.to_string(),
        link: format!("https://example.org/{}", title),
        publish_date: "2024-01-01 00:00:00".to_string(),
    }
}

#[test]
fn options_defaults() {
    let o = GetManyOptions::new();
    assert_eq!(o.query, "");
    assert_eq!(o.page, 1);
    assert_eq!(o.limit, 10);
    assert_eq!(o.skip, 0);
}

#[test]
fn set_page_recomputes_skip() {
    let mut o = GetManyOptions::new();
    o.set_page(3);
    assert_eq!(o.skip, 20);
    o.set_limit(7);
    o.set_page(4);
    assert_eq!(o.skip, 21);
    o.set_skip(5);
    assert_eq!(o.skip, 5);
    assert_eq!(o.page, 4);
}

#[test]
fn prepared_tuple_renders_decimals_and_wildcards() {
    let mut o = GetManyOptions::new();
    o.query = "rust".to_string();
    o.set_limit(25);
    o.set_page(2);
    let (q, limit, skip) = o.as_prepared_tuple();
    assert_eq!(q, "%rust%");
    assert_eq!(limit, "25");
    assert_eq!(skip, "25");
}

#[test]
fn prepared_tuple_zero_renders_as_zero() {
    let o = GetManyOptions::new();
    let (q, limit, skip) = o.as_prepared_tuple();
    assert_eq!(q, "%%");
    assert_eq!(limit, "10");
    assert_eq!(skip, "0");
}

#[test]
fn fingerprint_is_the_sha256_hex_of_the_title() {
    assert_eq!(
        fingerprint("Alpha"),
        "b1a96dd646bccaa24cef7a3db22a6f995f05658f4f1c3272913e258c03e6fb24"
    );
    assert_eq!(
        fingerprint("Beta"),
        "703390318bd55aef50b7823d2b90a846debff99e6e3d401a24a921b733912a6d"
    );
}

#[test]
fn fingerprint_of_the_empty_title() {
    assert_eq!(
        fingerprint(""),
        "e3b0c44298fc1c149afbf4c8996fb92427ae41e4649b934ca495991b7852b855"
    );
}

#[test]
fn fingerprint_is_deterministic() {
    assert_eq!(fingerprint("Some Title"), fingerprint("Some Title"));
    assert_ne!(fingerprint("Some Title"), fingerprint("Another Title"));
}

#[test]
fn duplicate_titles_collapse_to_one_row() {
    let mut store = EntryStore::new();
    assert_eq!(store.save(&entry("Alpha")), InsertOutcome::Inserted);
    assert_eq!(store.save(&entry("Beta")), InsertOutcome::Inserted);
    assert_eq!(store.save(&entry("Alpha")), InsertOutcome::AlreadyPresent);
    assert_eq!(store.count(), 2);
}

#[test]
fn duplicate_insert_mutates_nothing() {
    let mut store = EntryStore::new();
    store.save(&entry("Alpha"));
    let mut second = entry("Alpha");
    second.link = "https://elsewhere.example".to_string();
    second.publish_date = "1999-12-31 23:59:59".to_string();
    assert_eq!(store.save(&second), InsertOutcome::AlreadyPresent);
    let all = search(&store, "", 1, 10);
    assert_eq!(all.len(), 1);
    assert_eq!(all[0].link, "https://example.org/Alpha");
    assert_eq!(all[0].publish_date, "2024-01-01 00:00:00");
}

#[test]
fn search_filters_by_title_substring() {
    let mut store = EntryStore::new();
    store.save(&entry("Alpha"));
    store.save(&entry("Beta"));
    store.save(&entry("Alpha"));
    assert_eq!(store.count(), 2);
    let both = search(&store, "a", 1, 10);
    assert_eq!(both.len(), 2);
    assert_eq!(both[0].title, "Alpha");
    assert_eq!(both[1].title, "Beta");
    let beta = search(&store, "Beta", 1, 1);
    assert_eq!(beta.len(), 1);
    assert_eq!(beta[0].title, "Beta");
    let none = search(&store, "Gamma", 1, 10);
    assert!(none.is_empty());
}

#[test]
fn second_page_of_size_one_is_the_second_row() {
    let mut store = EntryStore::new();
    store.save(&entry("First"));
    store.save(&entry("Second"));
    store.save(&entry("Third"));
    let page = search(&store, "", 2, 1);
    assert_eq!(page.len(), 1);
    assert_eq!(page[0].title, "Second");
}

#[test]
fn pages_partition_the_filtered_set() {
    let mut store = EntryStore::new();
    for title in ["n1", "n2", "skip me", "n3", "n4", "n5"] {
        store.save(&entry(title));
    }
    let mut seen: Vec<String> = Vec::new();
    let sizes: Vec<usize> = (1..=4)
        .map(|p| {
            let page = search(&store, "n", p, 2);
            seen.extend(page.iter().map(|e| e.title.clone()));
            page.len()
        })
        .collect();
    assert_eq!(sizes, vec![2, 2, 1, 0]);
    assert_eq!(seen, vec!["n1", "n2", "n3", "n4", "n5"]);
}

#[test]
fn search_normalizes_non_positive_page_and_limit() {
    let mut store = EntryStore::new();
    for i in 0..12 {
        store.save(&entry(&format!("Title {i}")));
    }
    let defaults = search(&store, "", 0, 0);
    assert_eq!(defaults.len(), 10);
    assert_eq!(defaults[0].title, "Title 0");
    let page_past_end = search(&store, "", 99, 10);
    assert!(page_past_end.is_empty());
    let huge_page = search(&store, "", u64::MAX, u64::MAX);
    assert!(huge_page.is_empty());
}

#[test]
fn get_many_honours_skip_and_limit_directly() {
    let mut store = EntryStore::new();
    for title in ["a1", "a2", "a3", "a4"] {
        store.save(&entry(title));
    }
    let mut o = GetManyOptions::new();
    o.set_limit(2);
    o.set_skip(1);
    let rows = store.get_many(&o);
    assert_eq!(rows.len(), 2);
    assert_eq!(rows[0].title, "a2");
    assert_eq!(rows[1].title, "a3");
}
