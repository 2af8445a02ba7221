// Tests that lock the identity policy.

use rssify::ids::{EntryId, FeedId};

#[test]
fn feed_id_from_url_is_prefixed_and_trimmed() {
    let f = FeedId::from_url("  https://example.com/feed  ");
    assert_eq!(f.as_str(), "url:https://example.com/feed");
}

#[test]
fn entry_id_prefers_guid() {
    let feed = FeedId::from_url("https://ex.com/feed");
    let e = EntryId::from_parts(&feed, Some("G-123"), Some("https://ex.com/p"), Some("t"), Some(1));
    assert_eq!(e.as_str(), "guid:G-123");
}

#[test]
fn entry_id_falls_back_to_link() {
    let feed = FeedId::from_url("https://ex.com/feed");
    let e = EntryId::from_parts(&feed, None, Some("https://ex.com/p"), Some("t"), Some(1));
    assert_eq!(e.as_str(), "link:https://ex.com/p");
}

#[test]
fn entry_id_hash_is_deterministic_without_guid_or_link() {
    let feed = FeedId::from_url("https://ex.com/feed");
    let e1 = EntryId::from_parts(&feed, None, None, Some("Title"), Some(1_700_000_000));
    let e2 = EntryId::from_parts(&feed, None, None, Some("Title"), Some(1_700_000_000));
    assert_eq!(e1, e2);
}

#[test]
fn entry_id_hash_changes_when_inputs_change() {
    let feed = FeedId::from_url("https://ex.com/feed");
    let a = EntryId::from_parts(&feed, None, None, Some("Title A"), Some(1));
    let b = EntryId::from_parts(&feed, None, None, Some("Title B"), Some(1));
    assert_ne!(a, b);
}

#[test]
fn blank_guid_and_link_fall_through_to_hash() {
    let feed = FeedId::from_url("https://ex.com/feed");
    let hashed = EntryId::from_parts(&feed, None, None, Some("T"), Some(7));
    let blank = EntryId::from_parts(&feed, Some("   "), Some(" \t"), Some("T"), Some(7));
    assert_eq!(hashed, blank);
    assert!(hashed.as_str().starts_with("hash:"));
    assert_eq!(hashed.as_str().len(), "hash:".len() + 16);
}

#[test]
fn guid_is_trimmed_in_the_id() {
    let feed = FeedId::from_url("https://ex.com/feed");
    let e = EntryId::from_parts(&feed, Some("  G9  "), None, None, None);
    assert_eq!(e.as_str(), "guid:G9");
}

#[test]
fn from_url_ignores_surrounding_whitespace() {
    assert_eq!(FeedId::from_url(" https://x "), FeedId::from_url("https://x"));
}
