// Sanity checks of the core public model types (no I/O).

use rssify::ids::FeedId;
use rssify::model::Feed;
use rssify::sched::{SchedDecision, SchedInput, SchedReason, SchedState};

#[test]
fn feed_is_constructible_with_expected_fields() {
    let id = FeedId::from_url("https://example.com/feed");
    let f = Feed {
        id: id.clone(),
        url: "https://example.com/feed".into(),
        title: Some("Example".into()),
        site_url: Some("https://example.com".into()),
        etag: None,
        last_modified: None,
        active: true,
    };

    assert_eq!(f.id.as_str(), id.as_str());
    assert_eq!(f.title.as_deref(), Some("Example"));
    assert!(f.active);
}

#[test]
fn sched_input_compiles_and_holds_values() {
    let input = SchedInput {
        feed: FeedId::from_url("https://ex.com/feed"),
        now_unix: 1_700_000_000,
        last_ok_fetch_ts: Some(1_699_999_000),
        last_error_ts: None,
        observed_interval_sec: Some(3600),
        state: SchedState::Normal,
    };
    assert_eq!(input.state, SchedState::Normal);
    assert!(matches!(SchedDecision::WaitFor(60), SchedDecision::WaitFor(_)));
    assert!(matches!(
        SchedReason::RecentSuccess { seconds_ago: 123 },
        SchedReason::RecentSuccess { .. }
    ));
}
