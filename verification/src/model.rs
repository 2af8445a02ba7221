//! Pure domain records for feeds, entries and fetch results, with their
//! mathematical views used throughout the contracts.

use vstd::prelude::*;
use crate::ids::{EntryId, FeedId};

verus! {

/// Lightly-typed blob kinds at the boundary.
#[derive(Debug, Clone, Copy, PartialEq, Eq, Structural)]
pub enum ContentKind {
    Xml,
    Json,
    Html,
    Text,
    Binary,
}

/// Raw content captured from a source (kept as bytes; encoding may vary).
#[derive(Debug, Clone, PartialEq, Eq)]
pub struct ContentBlob {
    pub kind: ContentKind,
    pub bytes: Vec<u8>,
}

/// Canonical feed metadata known to the system.
#[derive(Debug, Clone, PartialEq, Eq)]
pub struct Feed {
    pub id: FeedId,
    pub url: String,
    pub title: Option<String>,
    pub site_url: Option<String>,
    pub etag: Option<String>,
    pub last_modified: Option<String>,
    pub active: bool,
}

/// Canonical entry representation post-parse/normalize; timestamps are
/// unix seconds.
#[derive(Debug, Clone, PartialEq, Eq)]
pub struct Entry {
    pub id: EntryId,
    pub feed: FeedId,
    pub url: Option<String>,
    pub title: Option<String>,
    pub published_ts: Option<i64>,
    pub updated_ts: Option<i64>,
    pub summary: Option<String>,
    pub content: Option<ContentBlob>,
}

/// Result of a fetch attempt at the boundary (no network in core).
#[derive(Debug, Clone, PartialEq, Eq)]
pub enum FetchOutcome {
    NotModified,
    NewContent { blob: ContentBlob, elapsed_ms: u64 },
    TransientFailure { hint: Option<String> },
    PermanentFailure { hint: Option<String> },
}

/// Mathematical value of a content blob.
pub struct ContentBlobView {
    pub kind: ContentKind,
    pub bytes: Seq<u8>,
}

/// Mathematical value of a feed record.
pub struct FeedView {
    pub id: Seq<char>,
    pub url: Seq<char>,
    pub title: Option<Seq<char>>,
    pub site_url: Option<Seq<char>>,
    pub etag: Option<Seq<char>>,
    pub last_modified: Option<Seq<char>>,
    pub active: bool,
}

/// Mathematical value of an entry record.
pub struct EntryView {
    pub id: Seq<char>,
    pub feed: Seq<char>,
    pub url: Option<Seq<char>>,
    pub title: Option<Seq<char>>,
    pub published_ts: Option<i64>,
    pub updated_ts: Option<i64>,
    pub summary: Option<Seq<char>>,
    pub content: Option<ContentBlobView>,
}

pub open spec fn opt_string_view(o: Option<String>) -> Option<Seq<char>> {
    match o {
        Some(s) => Some(s@),
        None => None,
    }
}

impl View for ContentBlob {
    type V = ContentBlobView;

    open spec fn view(&self) -> ContentBlobView {
        ContentBlobView { kind: self.kind, bytes: self.bytes@ }
    }
}

impl View for Feed {
    type V = FeedView;

    open spec fn view(&self) -> FeedView {
        FeedView {
            id: self.id@,
            url: self.url@,
            title: opt_string_view(self.title),
            site_url: opt_string_view(self.site_url),
            etag: opt_string_view(self.etag),
            last_modified: opt_string_view(self.last_modified),
            active: self.active,
        }
    }
}

impl View for Entry {
    type V = EntryView;

    open spec fn view(&self) -> EntryView {
        EntryView {
            id: self.id@,
            feed: self.feed@,
            url: opt_string_view(self.url),
            title: opt_string_view(self.title),
            published_ts: self.published_ts,
            updated_ts: self.updated_ts,
            summary: opt_string_view(self.summary),
            content: match self.content {
                Some(b) => Some(b@),
                None => None,
            },
        }
    }
}

} // verus!
