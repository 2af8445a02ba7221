// The standalone entry-id selection helper: guid over link over the
// externally computed content hash.

use rssify::id_policy::{choose_id, non_empty};

#[test]
fn choose_id_prefers_guid_then_link_then_hash() {
    assert_eq!(choose_id(Some("g"), Some("l"), "h"), "g");
    assert_eq!(choose_id(None, Some("l"), "h"), "l");
    assert_eq!(choose_id(None, None, "h"), "h");
    assert_eq!(choose_id(Some("  "), Some(" l "), "h"), "l");
    assert_eq!(choose_id(Some("  "), Some("  "), "h"), "h");
    // the chosen guid and link are trimmed; the hash passes through as-is
    assert_eq!(choose_id(Some(" g "), None, "h"), "g");
    assert_eq!(choose_id(None, None, " h "), " h ");
}

#[test]
fn non_empty_trims_and_filters() {
    assert_eq!(non_empty("  x  "), Some("x"));
    assert_eq!(non_empty("   "), None);
    assert_eq!(non_empty(""), None);
}
