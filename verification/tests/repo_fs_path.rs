// Validate the FsPaths builders and the URL-safe encoding shapes (no I/O).

use rssify::fs_paths::FsPaths;
use rssify::ids::{EntryId, FeedId};
use std::path::Path;

#[test]
fn placeholder_paths_link() {
    let _ = FsPaths::feed_dir("/root", &FeedId::from_url("https://ex.com/feed"));
}

#[test]
fn feed_dir_and_files_layout() {
    let root = "./data";
    let feed = FeedId::from_url("https://example.com/feed");
    let dir = FsPaths::feed_dir(root, &feed);
    let json = FsPaths::feed_json(root, &feed);
    let blob = FsPaths::last_blob(root, &feed);

    // Paths should end with the expected structure and encoding.
    assert!(dir.ends_with("feeds/url%3Ahttps%3A%2F%2Fexample.com%2Ffeed"));
    assert!(json.ends_with("feeds/url%3Ahttps%3A%2F%2Fexample.com%2Ffeed/feed.json"));
    assert!(blob.ends_with("feeds/url%3Ahttps%3A%2F%2Fexample.com%2Ffeed/last_blob.bin"));

    // Parent relationship sanity.
    assert_eq!(Path::new(&json).parent().unwrap().to_string_lossy(), dir);
    assert_eq!(Path::new(&blob).parent().unwrap().to_string_lossy(), dir);
}

#[test]
fn entry_json_layout() {
    let root = "/var/lib/rssify";
    let feed = FeedId::new("guid:FEED 01".to_string());
    let entry = EntryId::new("guid:ABC 123".to_string());

    let p = FsPaths::entry_json(root, &feed, &entry);

    // Expect percent-encoding of spaces and punctuation in both IDs.
    assert!(p.ends_with("feeds/guid%3AFEED%2001/entries/guid%3AABC%20123.json"));

    // Intermediate directories exist in the string.
    assert!(p.contains("/feeds/"));
    assert!(p.contains("/entries/"));
}

#[test]
fn entry_id_file_uses_flat_layout() {
    let p = FsPaths::entry_id_file("/data", &EntryId::new("a/b".to_string()));
    assert_eq!(p, "/data/entries/by_id/a%2Fb.json");
}
