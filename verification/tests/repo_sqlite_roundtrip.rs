// Integration tests for the SQLite backend's public surface: feed round
// trip, entry upsert, schedule timestamps, transaction visibility. Uses the
// `:memory:` DSN; no fixtures on disk.

use rssify::ids::{EntryId, FeedId};
use rssify::model::{ContentBlob, ContentKind, Entry, Feed};
use rssify::repo::Tx;
use rssify::sqlite_repo::SqliteRepo;

#[test]
fn feed_roundtrip_put_get_list() {
    let r = SqliteRepo::open(":memory:").unwrap();

    let f = Feed {
        id: FeedId::from_url("https://ex.com/feed"),
        url: "https://ex.com/feed".into(),
        title: Some("Example".into()),
        site_url: Some("https://ex.com".into()),
        etag: Some("W/123".into()),
        last_modified: None,
        active: true,
    };
    r.put(None, &f).unwrap();
    let out = r.get(None, &f.id).unwrap();
    assert_eq!(out.id.as_str(), f.id.as_str());
    assert_eq!(out.title, Some("Example".into()));
    assert_eq!(out, f);
    assert!(!r.list(None).unwrap().is_empty());
}

#[test]
fn entry_roundtrip_upsert_get_list() {
    let r = SqliteRepo::open(":memory:").unwrap();
    let feed = FeedId::from_url("https://ex.com/feed");
    r.put(
        None,
        &Feed {
            id: feed.clone(),
            url: "https://ex.com/feed".into(),
            title: None,
            site_url: None,
            etag: None,
            last_modified: None,
            active: true,
        },
    )
    .unwrap();

    let e = Entry {
        id: EntryId::new("guid:abc".to_string()),
        feed: feed.clone(),
        url: Some("https://ex.com/1".into()),
        title: Some("hello".into()),
        published_ts: Some(1_700_000_000),
        updated_ts: None,
        summary: Some("s".into()),
        content: Some(ContentBlob { kind: ContentKind::Xml, bytes: b"<x/>".to_vec() }),
    };
    r.upsert(None, &e).unwrap();

    let out = r.get_entry(None, &e.id).unwrap();
    assert_eq!(out.id.as_str(), e.id.as_str());
    assert_eq!(out.feed.as_str(), feed.as_str());
    assert_eq!(out, e);
    assert_eq!(r.list_by_feed(None, &feed).unwrap().len(), 1);
}

#[test]
fn schedule_roundtrip_and_tx() {
    let r = SqliteRepo::open(":memory:").unwrap();
    let f = Feed {
        id: FeedId::from_url("https://tx.test"),
        url: "https://tx.test".into(),
        title: None,
        site_url: None,
        etag: None,
        last_modified: None,
        active: true,
    };
    let tx = r.begin_tx().unwrap();
    assert!(tx.is_active());
    r.put(Some(&tx), &f).unwrap();
    tx.commit().unwrap();
    assert!(r.get(None, &f.id).is_ok());

    let feed = FeedId::from_url("https://ex.com/feed");
    assert_eq!(r.last_ok_fetch_ts(None, &feed).unwrap(), None);
    r.record_fetch_ts(None, &feed, 1_700_000_123).unwrap();
    assert_eq!(r.last_ok_fetch_ts(None, &feed).unwrap(), Some(1_700_000_123));
}

#[test]
fn upsert_is_idempotent_and_replaces() {
    let r = SqliteRepo::open(":memory:").unwrap();
    let feed = FeedId::from_url("https://ex.com/feed");
    let e = Entry {
        id: EntryId::new("guid:one".to_string()),
        feed: feed.clone(),
        url: None,
        title: Some("A".into()),
        published_ts: Some(10),
        updated_ts: None,
        summary: None,
        content: None,
    };
    // the placeholder feed row is created implicitly
    r.upsert(None, &e).unwrap();
    r.upsert(None, &e).unwrap();
    assert_eq!(r.list_by_feed(None, &feed).unwrap(), vec![e.clone()]);
    assert_eq!(r.get_entry(None, &e.id).unwrap(), e);

    // a changed record with the same id replaces, never duplicates
    let e2 = Entry { title: Some("B".into()), ..e.clone() };
    r.upsert(None, &e2).unwrap();
    assert_eq!(r.list_by_feed(None, &feed).unwrap(), vec![e2]);
}

#[test]
fn list_by_feed_is_sorted_by_published_updated_id() {
    let r = SqliteRepo::open(":memory:").unwrap();
    let feed = FeedId::from_url("https://ex.com/feed");
    let base = Entry {
        id: EntryId::new("guid:x".to_string()),
        feed: feed.clone(),
        url: None,
        title: None,
        published_ts: None,
        updated_ts: None,
        summary: None,
        content: None,
    };
    let c = Entry {
        id: EntryId::new("c".to_string()),
        published_ts: Some(20),
        ..base.clone()
    };
    let a = Entry {
        id: EntryId::new("a".to_string()),
        published_ts: Some(10),
        updated_ts: Some(5),
        ..base.clone()
    };
    let b = Entry {
        id: EntryId::new("b".to_string()),
        published_ts: Some(10),
        updated_ts: Some(3),
        ..base.clone()
    };
    let none_first = Entry { id: EntryId::new("z".to_string()), ..base.clone() };
    for e in [&c, &a, &b, &none_first] {
        r.upsert(None, e).unwrap();
    }
    let listed = r.list_by_feed(None, &feed).unwrap();
    let ids: Vec<&str> = listed.iter().map(|e| e.id.as_str()).collect();
    // absent timestamps sort first; then by published, updated, id
    assert_eq!(ids, vec!["z", "b", "a", "c"]);
}

#[test]
fn get_missing_is_not_found() {
    let r = SqliteRepo::open(":memory:").unwrap();
    assert_eq!(
        r.get(None, &FeedId::new("absent".to_string())).unwrap_err(),
        rssify::error::RepoError::NotFound
    );
    assert_eq!(
        r.get_entry(None, &EntryId::new("absent".to_string())).unwrap_err(),
        rssify::error::RepoError::NotFound
    );
}
