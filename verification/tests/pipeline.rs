// The pipeline data types exist, are public and hold their fields; the
// seed-extraction logic follows the documented precedence and messages.

use rssify::ids::FeedId;
use rssify::seeds::{
    extract_seeds, FeedMetaDelta, FeedSeed, PersistStats, PipelineError, SeedNode, SeedsDoc,
};

#[test]
fn pipeline_types_are_constructible() {
    let _a = FeedSeed { url: "https://ex.com/feed".into(), title_hint: None };
    let _b = FeedMetaDelta { title: None, site_url: None, etag: None, last_modified: None };
    let _c = PersistStats {
        feed: FeedId::from_url("https://ex.com/feed"),
        items_written: 0,
        elapsed_ms: 0,
        not_modified: false,
        failure_hint: None,
    };
}

fn obj(id: Option<&str>, url: Option<&str>, guid: Option<&str>) -> SeedNode {
    SeedNode::Obj {
        id: id.map(str::to_string),
        url: url.map(str::to_string),
        guid: guid.map(str::to_string),
    }
}

#[test]
fn seeds_prefer_id_then_url_then_guid() {
    let doc = SeedsDoc::Items(vec![
        obj(Some("X"), Some("u1"), None),
        obj(None, None, Some("G2")),
        obj(None, Some("u3"), None),
        SeedNode::Str(" u4 ".to_string()),
    ]);
    let out = extract_seeds(&doc).expect("parse");
    assert_eq!(out, vec!["X".to_string(), "G2".to_string(), "u3".to_string(), "u4".to_string()]);
}

#[test]
fn seeds_reject_empty_array() {
    let doc = SeedsDoc::Items(vec![]);
    match extract_seeds(&doc).unwrap_err() {
        PipelineError::Structure(m) => assert_eq!(m, "seeds array is empty"),
        other => panic!("unexpected error {other:?}"),
    }
}

#[test]
fn seeds_reject_blank_string_item() {
    let doc = SeedsDoc::Items(vec![
        SeedNode::Str("ok".to_string()),
        SeedNode::Str("   ".to_string()),
    ]);
    match extract_seeds(&doc).unwrap_err() {
        PipelineError::Structure(m) => assert_eq!(m, "item 1 is an empty string"),
        other => panic!("unexpected error {other:?}"),
    }
}

#[test]
fn seeds_reject_object_without_any_id() {
    let doc = SeedsDoc::Items(vec![obj(None, None, None)]);
    match extract_seeds(&doc).unwrap_err() {
        PipelineError::Structure(m) => {
            assert_eq!(m, "item 0 object missing 'id' and 'url' and 'guid'")
        },
        other => panic!("unexpected error {other:?}"),
    }
}

#[test]
fn seeds_reject_non_string_non_object_item() {
    let doc = SeedsDoc::Items(vec![SeedNode::Str("a".to_string()), SeedNode::Other("number")]);
    match extract_seeds(&doc).unwrap_err() {
        PipelineError::Structure(m) => {
            assert_eq!(m, "item 1 must be string or object, got number")
        },
        other => panic!("unexpected error {other:?}"),
    }
}

#[test]
fn seeds_reject_malformed_documents() {
    match extract_seeds(&SeedsDoc::NotArrayOrObject).unwrap_err() {
        PipelineError::Structure(m) => assert_eq!(m, "expected a JSON array or object"),
        other => panic!("unexpected error {other:?}"),
    }
    match extract_seeds(&SeedsDoc::ObjectWithoutSeeds).unwrap_err() {
        PipelineError::Structure(m) => {
            assert_eq!(m, "expected an array or an object with 'seeds'")
        },
        other => panic!("unexpected error {other:?}"),
    }
    match extract_seeds(&SeedsDoc::SeedsNotArray).unwrap_err() {
        PipelineError::Structure(m) => assert_eq!(m, "the 'seeds' value must be an array"),
        other => panic!("unexpected error {other:?}"),
    }
}

#[test]
fn pipeline_error_describes_itself() {
    let e = PipelineError::Structure("seeds array is empty".to_string());
    assert_eq!(e.describe(), "invalid seeds structure: seeds array is empty");
    let e = PipelineError::Json("eof".to_string());
    assert_eq!(e.describe(), "json parse error: eof");
    let e = PipelineError::Io("denied".to_string());
    assert_eq!(e.describe(), "io error: denied");
}
