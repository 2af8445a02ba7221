// Compile-time and runtime sanity checks for the core repository traits,
// against an in-memory dummy backend.

use rssify::error::RepoError;
use rssify::ids::{EntryId, FeedId};
use rssify::model::{Entry, Feed};
use rssify::repo::{EntryRepo, FeedRepo, Tx};

use std::collections::BTreeMap;

#[derive(Default)]
struct MemTx {
    active: bool,
}

impl Tx for MemTx {
    fn is_active(&self) -> bool {
        self.active
    }
}

#[derive(Default)]
struct MemFeeds {
    feeds: BTreeMap<String, Feed>,
}

impl FeedRepo for MemFeeds {
    type Tx = MemTx;

    fn get(&self, _tx: Option<&MemTx>, id: &FeedId) -> Result<Feed, RepoError> {
        self.feeds.get(id.as_str()).cloned().ok_or(RepoError::NotFound)
    }

    fn put(&self, _tx: Option<&MemTx>, _feed: &Feed) -> Result<(), RepoError> {
        // A real backend would mutate state; here we only validate callability.
        Ok(())
    }

    fn list(&self, _tx: Option<&MemTx>) -> Result<Vec<Feed>, RepoError> {
        Ok(self.feeds.values().cloned().collect())
    }
}

#[derive(Default)]
struct MemEntries;

impl EntryRepo for MemEntries {
    type Tx = MemTx;

    fn get(&self, _tx: Option<&MemTx>, _id: &EntryId) -> Result<Entry, RepoError> {
        Err(RepoError::NotFound)
    }

    fn upsert(&self, _tx: Option<&MemTx>, _entry: &Entry) -> Result<(), RepoError> {
        Ok(())
    }

    fn list_by_feed(&self, _tx: Option<&MemTx>, _feed: &FeedId) -> Result<Vec<Entry>, RepoError> {
        Ok(Vec::new())
    }
}

#[test]
fn tx_is_active_flag() {
    let tx = MemTx { active: true };
    assert!(tx.is_active());
}

#[test]
fn repo_traits_are_object_safe() {
    fn takes_feed_repo<R: FeedRepo>(_r: &R) {}
    fn takes_entry_repo<R: EntryRepo>(_r: &R) {}
    let feeds = MemFeeds::default();
    let entries = MemEntries::default();
    takes_feed_repo(&feeds);
    takes_entry_repo(&entries);
}
