//! Seed-list extraction for the fetch path. A seed document is a list of
//! items, each a plain string or an object carrying `id`, `url` and `guid`
//! fields; an item's identifier is picked by precedence `id`, `url`,
//! `guid`, each trimmed and non-blank. The caller turns raw JSON into
//! `SeedsDoc`; everything the format decides happens here.

use vstd::prelude::*;
use crate::strutil::{dec_digits, trim_spec, trim_slice, u64_dec};

verus! {

/// Errors of the seed-loading path.
#[derive(Debug, Clone, PartialEq, Eq)]
pub enum PipelineError {
    Io(String),
    Json(String),
    Structure(String),
}

impl PipelineError {
    /// A printable description of the error.
    pub fn describe(&self) -> (r: String)
        ensures
            match self {
                PipelineError::Io(m) => r@ == "io error: "@ + m@,
                PipelineError::Json(m) => r@ == "json parse error: "@ + m@,
                PipelineError::Structure(m) => r@ == "invalid seeds structure: "@ + m@,
            },
    {
        let mut out = String::new();
        match self {
            PipelineError::Io(m) => {
                out.append("io error: ");
                out.append(m.as_str());
            },
            PipelineError::Json(m) => {
                out.append("json parse error: ");
                out.append(m.as_str());
            },
            PipelineError::Structure(m) => {
                out.append("invalid seeds structure: ");
                out.append(m.as_str());
            },
        }
        out
    }
}

/// One item of a seed list, as the loader hands it over: a string, an
/// object reduced to its identifier fields (a non-string field counts as
/// absent), or another JSON value with the name of its type.
#[derive(Debug, Clone, PartialEq, Eq)]
pub enum SeedNode {
    Str(String),
    Obj { id: Option<String>, url: Option<String>, guid: Option<String> },
    Other(&'static str),
}

/// A seed document, reduced to what the format decides on: the items of a
/// top-level array or of an object's `seeds` array, or the malformed shapes.
#[derive(Debug, Clone, PartialEq, Eq)]
pub enum SeedsDoc {
    Items(Vec<SeedNode>),
    SeedsNotArray,
    ObjectWithoutSeeds,
    NotArrayOrObject,
}

/// The identifier an item yields, when it yields one: a non-blank string
/// item (trimmed), or the first non-blank of an object's `id`, `url`,
/// `guid` (trimmed).
pub open spec fn seed_choice(n: SeedNode) -> Option<Seq<char>> {
    match n {
        SeedNode::Str(s) => if trim_spec(s@).len() > 0 {
            Some(trim_spec(s@))
        } else {
            None
        },
        SeedNode::Obj { id, url, guid } => {
            if id matches Some(s) && trim_spec(s@).len() > 0 {
                Some(trim_spec(id->0@))
            } else if url matches Some(s) && trim_spec(s@).len() > 0 {
                Some(trim_spec(url->0@))
            } else if guid matches Some(s) && trim_spec(s@).len() > 0 {
                Some(trim_spec(guid->0@))
            } else {
                None
            }
        },
        SeedNode::Other(_) => None,
    }
}

/// Index of the first item that yields no identifier, or the item count.
pub open spec fn first_bad(items: Seq<SeedNode>, i: int) -> int
    decreases items.len() - i when 0 <= i <= items.len()
{
    if i >= items.len() {
        i
    } else if seed_choice(items[i]) is None {
        i
    } else {
        first_bad(items, i + 1)
    }
}

/// The message an item that yields no identifier produces.
pub open spec fn bad_item_msg(n: SeedNode, i: int) -> Seq<char> {
    match n {
        SeedNode::Str(_) => "item "@ + dec_digits(i as nat) + " is an empty string"@,
        SeedNode::Obj { .. } => "item "@ + dec_digits(i as nat)
            + " object missing 'id' and 'url' and 'guid'"@,
        SeedNode::Other(name) => "item "@ + dec_digits(i as nat)
            + " must be string or object, got "@ + name@,
    }
}

/// What extraction yields on success: every item's chosen identifier, in
/// order.
pub open spec fn seeds_ok(items: Seq<SeedNode>) -> Seq<Seq<char>> {
    Seq::new(items.len(), |i: int| seed_choice(items[i])->0)
}

proof fn lemma_first_bad(items: Seq<SeedNode>, i: int)
    requires
        0 <= i <= items.len(),
    ensures
        i <= first_bad(items, i) <= items.len(),
        forall|k: int|
            i <= k < first_bad(items, i) ==> seed_choice(#[trigger] items[k]) is Some,
        first_bad(items, i) < items.len() ==> seed_choice(items[first_bad(items, i)]) is None,
    decreases items.len() - i,
{
    if i < items.len() && seed_choice(items[i]) is Some {
        lemma_first_bad(items, i + 1);
    }
}

fn seed_choice_exec(n: &SeedNode) -> (r: Option<String>)
    ensures
        match r {
            Some(s) => seed_choice(*n) == Some(s@),
            None => seed_choice(*n) is None,
        },
{
    match n {
        SeedNode::Str(s) => {
            let t = trim_slice(s.as_str());
            if t.is_empty() {
                None
            } else {
                Some(t.to_owned())
            }
        },
        SeedNode::Obj { id, url, guid } => {
            if let Some(s) = id {
                let t = trim_slice(s.as_str());
                if !t.is_empty() {
                    return Some(t.to_owned());
                }
            }
            if let Some(s) = url {
                let t = trim_slice(s.as_str());
                if !t.is_empty() {
                    return Some(t.to_owned());
                }
            }
            if let Some(s) = guid {
                let t = trim_slice(s.as_str());
                if !t.is_empty() {
                    return Some(t.to_owned());
                }
            }
            None
        },
        SeedNode::Other(_) => None,
    }
}

fn bad_item_msg_exec(n: &SeedNode, i: usize) -> (r: String)
    ensures
        r@ == bad_item_msg(*n, i as int),
{
    let mut out = String::new();
    out.append("item ");
    let d = u64_dec(i as u64);
    out.append(d.as_str());
    match n {
        SeedNode::Str(_) => {
            out.append(" is an empty string");
            proof {
                assert(out@ =~= bad_item_msg(*n, i as int));
            }
        },
        SeedNode::Obj { .. } => {
            out.append(" object missing 'id' and 'url' and 'guid'");
            proof {
                assert(out@ =~= bad_item_msg(*n, i as int));
            }
        },
        SeedNode::Other(name) => {
            out.append(" must be string or object, got ");
            out.append(name);
            proof {
                assert(out@ =~= bad_item_msg(*n, i as int));
            }
        },
    }
    out
}

/// Extract the seed identifiers of a document. Succeeds exactly on a
/// non-empty item list whose every item yields an identifier; otherwise the
/// error names the malformed shape, or the first bad item.
pub fn extract_seeds(doc: &SeedsDoc) -> (r: Result<Vec<String>, PipelineError>)
    ensures
        match r {
            Ok(out) => (doc matches SeedsDoc::Items(items) && items@.len() > 0 && first_bad(
                items@,
                0,
            ) == items@.len() && out@.len() == items@.len() && (forall|i: int|
                0 <= i < out@.len() ==> out@[i]@ == seeds_ok(items@)[i])),
            Err(e) => match doc {
                SeedsDoc::NotArrayOrObject => (e matches PipelineError::Structure(m) && m@
                    == "expected a JSON array or object"@),
                SeedsDoc::ObjectWithoutSeeds => (e matches PipelineError::Structure(m) && m@
                    == "expected an array or an object with 'seeds'"@),
                SeedsDoc::SeedsNotArray => (e matches PipelineError::Structure(m) && m@
                    == "the 'seeds' value must be an array"@),
                SeedsDoc::Items(items) => (e matches PipelineError::Structure(m) && (
                if items@.len() == 0 {
                    m@ == "seeds array is empty"@
                } else {
                    first_bad(items@, 0) < items@.len() && m@ == bad_item_msg(
                        items@[first_bad(items@, 0)],
                        first_bad(items@, 0),
                    )
                })),
            },
        },
{
    let items = match doc {
        SeedsDoc::NotArrayOrObject => {
            let m = "expected a JSON array or object";
            return Err(PipelineError::Structure(m.to_owned()));
        },
        SeedsDoc::ObjectWithoutSeeds => {
            let m = "expected an array or an object with 'seeds'";
            return Err(PipelineError::Structure(m.to_owned()));
        },
        SeedsDoc::SeedsNotArray => {
            let m = "the 'seeds' value must be an array";
            return Err(PipelineError::Structure(m.to_owned()));
        },
        SeedsDoc::Items(items) => items,
    };
    let n = items.len();
    if n == 0 {
        let m = "seeds array is empty";
        return Err(PipelineError::Structure(m.to_owned()));
    }
    proof {
        lemma_first_bad(items@, 0);
    }
    let mut out: Vec<String> = Vec::new();
    let mut i: usize = 0;
    while i < n
        invariant
            0 <= i <= n,
            n == items@.len(),
            n > 0,
            (*doc matches SeedsDoc::Items(x) && x@ == items@),
            out@.len() == i,
            forall|k: int| 0 <= k < i ==> seed_choice(#[trigger] items@[k]) is Some,
            forall|k: int| 0 <= k < i ==> out@[k]@ == seed_choice(#[trigger] items@[k])->0,
            i <= first_bad(items@, 0),
        decreases n - i,
    {
        match seed_choice_exec(&items[i]) {
            Some(s) => {
                out.push(s);
            },
            None => {
                proof {
                    lemma_first_bad(items@, 0);
                    assert(first_bad(items@, 0) == i) by {
                        if first_bad(items@, 0) > i {
                            assert(seed_choice(items@[i as int]) is Some);
                        }
                    }
                }
                return Err(PipelineError::Structure(bad_item_msg_exec(&items[i], i)));
            },
        }
        proof {
            lemma_first_bad(items@, 0);
            assert(i + 1 <= first_bad(items@, 0)) by {
                if first_bad(items@, 0) == i {
                    assert(seed_choice(items@[i as int]) is None);
                }
            }
        }
        i += 1;
    }
    proof {
        lemma_first_bad(items@, 0);
        assert(first_bad(items@, 0) == n) by {
            if first_bad(items@, 0) < n {
                assert(seed_choice(items@[first_bad(items@, 0)]) is Some);
            }
        }
        assert(forall|k: int| 0 <= k < n ==> out@[k]@ == seeds_ok(items@)[k]);
    }
    Ok(out)
}

/// A seed read from a configuration file: the feed URL and an optional
/// title hint.
#[derive(Debug, Clone, PartialEq, Eq)]
pub struct FeedSeed {
    pub url: String,
    pub title_hint: Option<String>,
}

/// Metadata changes observed for a feed during a fetch.
#[derive(Debug, Clone, PartialEq, Eq)]
pub struct FeedMetaDelta {
    pub title: Option<String>,
    pub site_url: Option<String>,
    pub etag: Option<String>,
    pub last_modified: Option<String>,
}

/// Per-feed persistence outcome of one fetch pass.
#[derive(Debug, Clone, PartialEq, Eq)]
pub struct PersistStats {
    pub feed: crate::ids::FeedId,
    pub items_written: usize,
    pub elapsed_ms: u64,
    pub not_modified: bool,
    pub failure_hint: Option<String>,
}

/// Counts reported after a fetch pass over a seed list.
#[derive(Debug, Clone, PartialEq, Eq, Structural)]
pub struct FetchSummary {
    pub feeds_total: usize,
    pub feeds_processed: usize,
    pub items_parsed: usize,
    pub items_written: usize,
}

} // verus!
