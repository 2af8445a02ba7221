// The persisted record format: exact canonical text, parse-print round
// trips, number and schedule-marker parsing.

use rssify::codec::{encode_entry, encode_feed, parse_entry, parse_feed};
use rssify::fs_store::{encode_last_ok, parse_last_ok};
use rssify::ids::{EntryId, FeedId};
use rssify::model::{ContentBlob, ContentKind, Entry, Feed};
use rssify::error::RepoError;
use rssify::sqlite_repo::{decode_entry_text, decode_feed_text};
use rssify::strutil::{i64_to_dec, parse_i64};

fn sample_feed() -> Feed {
    Feed {
        id: FeedId::from_url("https://ex.com/feed"),
        url: "https://ex.com/feed".into(),
        title: Some("An \"odd\" title\\with escapes\n".into()),
        site_url: None,
        etag: Some("W/123".into()),
        last_modified: None,
        active: true,
    }
}

#[test]
fn feed_text_is_canonical() {
    let f = Feed {
        id: FeedId::new("url:x".to_string()),
        url: "u".into(),
        title: None,
        site_url: None,
        etag: None,
        last_modified: None,
        active: false,
    };
    assert_eq!(
        encode_feed(&f),
        "{\"id\":\"url:x\",\"url\":\"u\",\"title\":null,\"site_url\":null,\"etag\":null,\"last_modified\":null,\"active\":false}"
    );
}

#[test]
fn feed_roundtrips_through_text() {
    let f = sample_feed();
    let text = encode_feed(&f);
    let back = parse_feed(&text).expect("canonical text parses");
    assert_eq!(back, f);
}

#[test]
fn entry_roundtrips_through_text() {
    let feed = FeedId::from_url("https://ex.com/feed");
    let e = Entry {
        id: EntryId::from_parts(&feed, Some("g-1"), None, None, None),
        feed,
        url: Some("https://ex.com/a?x=1&y=2".into()),
        title: Some("Tabs\tand \u{0001} controls".into()),
        published_ts: Some(-42),
        updated_ts: Some(9_223_372_036_854_775_807),
        summary: None,
        content: Some(ContentBlob { kind: ContentKind::Binary, bytes: vec![0, 1, 255, 128] }),
    };
    let text = encode_entry(&e);
    let back = parse_entry(&text).expect("canonical text parses");
    assert_eq!(back, e);
}

#[test]
fn entry_text_is_canonical() {
    let e = Entry {
        id: EntryId::new("e1".to_string()),
        feed: FeedId::new("f1".to_string()),
        url: None,
        title: None,
        published_ts: Some(10),
        updated_ts: None,
        summary: None,
        content: Some(ContentBlob { kind: ContentKind::Xml, bytes: vec![60, 120, 62] }),
    };
    assert_eq!(
        encode_entry(&e),
        "{\"id\":\"e1\",\"feed\":\"f1\",\"url\":null,\"title\":null,\"published_ts\":10,\"updated_ts\":null,\"summary\":null,\"content\":{\"kind\":\"Xml\",\"bytes\":[60,120,62]}}"
    );
}

#[test]
fn malformed_text_is_rejected() {
    assert!(parse_feed("").is_none());
    assert!(parse_feed("{}").is_none());
    assert!(parse_feed("{\"id\":\"x\"}").is_none());
    let f = sample_feed();
    let mut text = encode_feed(&f);
    text.push('x'); // trailing garbage
    assert!(parse_feed(&text).is_none());
    assert!(parse_entry("{\"id\":\"e\"}").is_none());
}

#[test]
fn decimal_rendering_and_parsing_roundtrip() {
    for v in [0i64, 1, -1, 42, -42, i64::MAX, i64::MIN] {
        let s = i64_to_dec(v);
        assert_eq!(s, format!("{v}"));
        assert_eq!(parse_i64(&s), Some(v));
    }
    assert_eq!(parse_i64(""), None);
    assert_eq!(parse_i64("-"), None);
    assert_eq!(parse_i64("12a"), None);
    assert_eq!(parse_i64("9223372036854775808"), None); // one past i64::MAX
    assert_eq!(parse_i64("-9223372036854775808"), Some(i64::MIN));
    assert_eq!(parse_i64("007"), Some(7));
}

#[test]
fn schedule_marker_roundtrips() {
    for v in [0i64, 12345, -7, i64::MAX] {
        let text = encode_last_ok(v);
        assert_eq!(parse_last_ok(&text), Ok(Some(v)));
        // readers tolerate surrounding whitespace
        assert_eq!(parse_last_ok(&format!(" {text}\n")), Ok(Some(v)));
    }
    assert_eq!(parse_last_ok(""), Ok(None));
    assert_eq!(parse_last_ok("  \n"), Ok(None));
    assert!(parse_last_ok("soon").is_err());
}

#[test]
fn hash_id_is_sixteen_lower_hex_digits() {
    assert_eq!(rssify::ids::u64_hex16_exec(0), "0000000000000000");
    assert_eq!(rssify::ids::u64_hex16_exec(0xdeadbeef), "00000000deadbeef");
    assert_eq!(rssify::ids::u64_hex16_exec(u64::MAX), "ffffffffffffffff");
}

#[test]
fn malformed_stored_rows_are_ser_errors() {
    match decode_feed_text("nonsense").unwrap_err() {
        RepoError::Ser(m) => assert_eq!(m, "malformed feed record"),
        other => panic!("expected Ser, got {other:?}"),
    }
    match decode_entry_text("{}").unwrap_err() {
        RepoError::Ser(m) => assert_eq!(m, "malformed entry record"),
        other => panic!("expected Ser, got {other:?}"),
    }
    let f = sample_feed();
    assert_eq!(decode_feed_text(&encode_feed(&f)).unwrap(), f);
}
