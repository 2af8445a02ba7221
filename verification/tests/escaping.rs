// The two id-escaping schemes: the per-character substitution used by the
// filesystem layout, and the hex form with its best-effort reverse.

use rssify::fs_store::escape_id;
use rssify::fs_util;
use rssify::repo::Tx;

#[test]
fn escaping_is_stable() {
    assert_eq!(escape_id("url:https://ex/a/b"), "url-https___ex_a_b");
    assert_eq!(escape_id("hash:deadbeef"), "hash-deadbeef");
}

#[test]
fn hex_escaping_keeps_safe_bytes_and_encodes_the_rest() {
    assert_eq!(fs_util::escape_id("abc-DEF_09"), "abc-DEF_09");
    assert_eq!(fs_util::escape_id("a/b"), "a_2fb");
    assert_eq!(fs_util::escape_id("url:x"), "url_3ax");
    assert_eq!(fs_util::escape_id(" "), "_20");
}

#[test]
fn hex_unescaping_reverses_escaping() {
    let id = "url:https://ex.com/a b";
    assert_eq!(fs_util::unescape_id(&fs_util::escape_id(id)), id);
    // a lone underscore without hex digits passes through
    assert_eq!(fs_util::unescape_id("a_zz"), "a_zz");
    assert_eq!(fs_util::unescape_id("_41"), "A");
}

#[test]
fn fs_repo_paths_use_the_hex_escaped_ids() {
    let repo = rssify::fs_store::FsRepo::new("/data".to_string());
    let feed = rssify::ids::FeedId::from_url("https://ex.com/f");
    let entry = rssify::ids::EntryId::new("guid:a/b".to_string());
    assert_eq!(
        repo.feed_path(&feed),
        "/data/feeds/url_3ahttps_3a_2f_2fex_2ecom_2ff/feed.json"
    );
    assert_eq!(repo.entry_by_id_path(&entry), "/data/entries/by_id/guid_3aa_2fb.json");
    assert_eq!(
        repo.entry_by_feed_path(&feed, &entry),
        "/data/entries/by_feed/url_3ahttps_3a_2f_2fex_2ecom_2ff/guid_3aa_2fb.json"
    );
    assert_eq!(
        repo.last_ok_path(&feed),
        "/data/schedule/url_3ahttps_3a_2f_2fex_2ecom_2ff/last_ok.txt"
    );
    assert_eq!(repo.feeds_dir(), "/data/feeds");
    assert_eq!(repo.entries_by_id_dir(), "/data/entries/by_id");
}

#[test]
fn fs_tx_is_an_activity_marker() {
    let repo = rssify::fs_store::FsRepo::new(".".to_string());
    assert!(repo.begin_tx().is_active());
    let idle = rssify::fs_store::FsTx::default();
    assert!(!idle.is_active());
}
