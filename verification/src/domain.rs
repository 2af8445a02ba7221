//! Pure types and minimal trait seams for the ingestion pipeline. Traits
//! return results with the domain `Error`; implementations live with the
//! callers that own the side effects.

use vstd::prelude::*;

verus! {

/// Domain-level error for pipeline collaborators.
#[derive(Debug, Clone, PartialEq, Eq)]
pub enum Error {
    Invalid(String),
    NotFound(String),
    Io(String),
    Other(String),
}

/// Metadata captured alongside a stored item.
#[derive(Debug, Clone, PartialEq, Eq)]
pub struct EntryMeta {
    pub url: String,
    pub title: Option<String>,
    pub published_rfc3339: Option<String>,
    pub source_label: Option<String>,
}

impl EntryMeta {
    /// A printable label for the item: its title, or a placeholder.
    pub fn label(&self) -> (r: String)
        ensures
            match self.title {
                Some(t) => r@ == t@,
                None => r@ == "<untitled>"@,
            },
    {
        match &self.title {
            Some(t) => t.clone(),
            None => {
                let r = "<untitled>";
                r.to_owned()
            },
        }
    }
}

/// A stored item: its source, extracted text and deduplication fingerprint.
#[derive(Debug, Clone, PartialEq, Eq)]
pub struct Item {
    pub url: String,
    pub readable_text: Option<String>,
    pub fingerprint: String,
    pub meta: EntryMeta,
}

/// Persistence seam for items, keyed by fingerprint.
pub trait Repository {
    fn save_item(&self, item: Item) -> Result<(), Error>;

    fn has_fingerprint(&self, fingerprint: &str) -> Result<bool, Error>;
}

/// Source seam: fetch raw bytes for a URL.
pub trait Fetcher {
    fn fetch(&self, url: &str) -> Result<Vec<u8>, Error>;
}

/// Extraction seam: readable text out of raw HTML bytes.
pub trait Parser {
    fn parse_readable(&self, html_bytes: &[u8]) -> Result<String, Error>;
}

/// Pacing seam: the next polling interval from the last outcome.
pub trait Scheduler {
    fn next_interval_secs(&self, last_http_status: Option<u16>, saw_new: bool) -> u64;
}

} // verus!
