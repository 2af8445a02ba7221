// The canonical listing order and the sort that enforces it.

use rssify::ids::FeedId;
use rssify::ids::EntryId;
use rssify::model::Entry;
use rssify::model::Feed;
use rssify::order::{entry_le_exec, sort_entries, sort_feeds, str_le};

fn mk(id: &str, published: Option<i64>, updated: Option<i64>) -> Entry {
    Entry {
        id: EntryId::new(id.to_string()),
        feed: FeedId::new("f".to_string()),
        url: None,
        title: None,
        published_ts: published,
        updated_ts: updated,
        summary: None,
        content: None,
    }
}

#[test]
fn absent_timestamps_sort_first_and_id_breaks_ties() {
    let input = vec![
        mk("b", Some(10), Some(3)),
        mk("z", None, None),
        mk("c", Some(20), None),
        mk("a", Some(10), Some(3)),
    ];
    let sorted = sort_entries(input);
    let ids: Vec<&str> = sorted.iter().map(|e| e.id.as_str()).collect();
    assert_eq!(ids, vec!["z", "a", "b", "c"]);
}

#[test]
fn updated_breaks_published_ties() {
    let input = vec![mk("a", Some(10), Some(5)), mk("b", Some(10), Some(3)), mk("c", Some(10), None)];
    let sorted = sort_entries(input);
    let ids: Vec<&str> = sorted.iter().map(|e| e.id.as_str()).collect();
    assert_eq!(ids, vec!["c", "b", "a"]);
}

#[test]
fn sorting_keeps_every_entry() {
    let input = vec![mk("a", Some(2), None), mk("a", Some(1), None), mk("a", Some(1), None)];
    let sorted = sort_entries(input.clone());
    assert_eq!(sorted.len(), input.len());
    assert_eq!(sorted[0].published_ts, Some(1));
    assert_eq!(sorted[1].published_ts, Some(1));
    assert_eq!(sorted[2].published_ts, Some(2));
}

#[test]
fn comparator_matches_expectations() {
    assert!(str_le("abc", "abd"));
    assert!(str_le("ab", "abc"));
    assert!(!str_le("b", "ab"));
    assert!(str_le("", "a"));
    let early = mk("a", None, Some(99));
    let late = mk("a", Some(0), None);
    assert!(entry_le_exec(&early, &late));
    assert!(!entry_le_exec(&late, &early));
}

#[test]
fn feeds_list_in_id_order() {
    let mkf = |id: &str| Feed {
        id: rssify::ids::FeedId::new(id.to_string()),
        url: id.to_string(),
        title: None,
        site_url: None,
        etag: None,
        last_modified: None,
        active: true,
    };
    let sorted = sort_feeds(vec![mkf("url:b"), mkf("url:a"), mkf("url:c")]);
    let ids: Vec<&str> = sorted.iter().map(|f| f.id.as_str()).collect();
    assert_eq!(ids, vec!["url:a", "url:b", "url:c"]);
}
