//! Path layout of the filesystem-backed repository: one JSON file per
//! record under a configured root, with ids made path-safe by the hex
//! escaping of `fs_util`. The layer that touches the disk lives outside the
//! library and builds every path through these functions, so identical ids
//! always map to identical paths; the escaping is never required to be
//! reversible.
//!
//! Layout:
//!   `<root>/feeds/<escaped_feed_id>/feed.json`
//!   `<root>/entries/by_id/<escaped_entry_id>.json`
//!   `<root>/entries/by_feed/<escaped_feed_id>/<escaped_entry_id>.json`
//!   `<root>/schedule/<escaped_feed_id>/last_ok.txt`

use vstd::prelude::*;
use vstd::map::*;
use crate::codec::{entry_json, feed_json, parse_feed_spec, lemma_feed_roundtrip};
use crate::error::RepoError;
use crate::model::{EntryView, FeedView};
use crate::ids::{EntryId, FeedId};
use crate::repo::Tx;
use crate::fs_util::escape_id_spec as hex_escape_spec;
use crate::strutil::{
    push_char, trim_spec, trim_slice, i64_dec_str, i64_to_dec, parse_i64, parse_i64_spec,
    lemma_i64_dec_roundtrip, is_ws, is_digit,
};
use vstd::string::*;
use vstd::utf8::encode_utf8;

verus! {

/// The escaped path component of an id, per the layout's rule: every byte
/// that is not ASCII alphanumeric, `-` or `_` becomes `_XX` (lower hex).
pub open spec fn id_component_spec(id: Seq<char>) -> Seq<char> {
    hex_escape_spec(encode_utf8(id))
}

/// How one character of the loose, human-readable escape is substituted:
/// the first colon (the id's kind separator) becomes `-`, any later colon
/// and both slashes become `_`, everything else is kept.
pub open spec fn escape_from(s: Seq<char>, seen_colon: bool) -> Seq<char>
    decreases s.len(),
{
    if s.len() == 0 {
        Seq::empty()
    } else if s[0] == ':' {
        seq![if seen_colon { '_' } else { '-' }] + escape_from(s.drop_first(), true)
    } else if s[0] == '/' || s[0] == '\\' {
        seq!['_'] + escape_from(s.drop_first(), seen_colon)
    } else {
        seq![s[0]] + escape_from(s.drop_first(), seen_colon)
    }
}

/// The loose, human-readable path-safe form of an id: trimmed, then
/// substituted character by character. Unlike the hex escaping the layout
/// uses, this keeps most of the id legible.
pub open spec fn escape_id_spec(s: Seq<char>) -> Seq<char> {
    escape_from(trim_spec(s), false)
}

proof fn lemma_escape_from_unfold(s: Seq<char>, i: int, seen: bool)
    requires
        0 <= i < s.len(),
    ensures
        escape_from(s.skip(i), seen) == seq![
            if s[i] == ':' {
                if seen {
                    '_'
                } else {
                    '-'
                }
            } else if s[i] == '/' || s[i] == '\\' {
                '_'
            } else {
                s[i]
            },
        ] + escape_from(s.skip(i + 1), if s[i] == ':' { true } else { seen }),
{
    assert(s.skip(i)[0] == s[i]);
    assert(s.skip(i).drop_first() =~= s.skip(i + 1));
}

/// Loosely escape an id string for a directory or file name: the first
/// `:` becomes `-`, later `:` and both slashes become `_`, the rest is
/// unchanged; surrounding whitespace is trimmed. For the persisted layout
/// itself see `fs_util::escape_id`.
pub fn escape_id(s: &str) -> (r: String)
    ensures
        r@ == escape_id_spec(s@),
{
    let t = trim_slice(s);
    let n = t.unicode_len();
    let mut out = String::new();
    let mut seen_colon = false;
    let mut i: usize = 0;
    proof {
        assert(t@.skip(0) =~= t@);
    }
    while i < n
        invariant
            0 <= i <= n,
            n == t@.len(),
            t@ == trim_spec(s@),
            escape_id_spec(s@) == out@ + escape_from(t@.skip(i as int), seen_colon),
        decreases n - i,
    {
        let c = t.get_char(i);
        proof {
            lemma_escape_from_unfold(t@, i as int, seen_colon);
        }
        if c == ':' {
            if seen_colon {
                push_char(&mut out, '_');
            } else {
                push_char(&mut out, '-');
            }
            seen_colon = true;
        } else if c == '/' || c == '\\' {
            push_char(&mut out, '_');
        } else {
            push_char(&mut out, c);
        }
        proof {
            assert(escape_id_spec(s@) =~= out@ + escape_from(t@.skip(i + 1), seen_colon));
        }
        i += 1;
    }
    proof {
        assert(t@.skip(n as int) =~= Seq::<char>::empty());
        assert(out@ =~= escape_id_spec(s@));
    }
    out
}

/// Trivial transaction handle for the filesystem backend: per-file writes
/// are atomic, but there are no cross-file transactions, so this is only
/// an activity marker.
#[derive(Debug, Clone, Copy, PartialEq, Eq, Structural)]
pub struct FsTx {
    pub active: bool,
}

impl Default for FsTx {
    fn default() -> (r: Self)
        ensures
            !r.active,
    {
        FsTx { active: false }
    }
}

impl Tx for FsTx {
    fn is_active(&self) -> (r: bool)
        ensures
            r == self.active,
    {
        self.active
    }
}

/// Filesystem repository layout rooted at `root`. This type owns the path
/// rules; reading and writing the files is the caller's side of the
/// boundary.
#[derive(Debug, Clone)]
pub struct FsRepo {
    pub root: String,
}

/// `<root>/feeds/<escaped id>/feed.json`
pub open spec fn feed_path_spec(root: Seq<char>, id: Seq<char>) -> Seq<char> {
    root + "/feeds/"@ + id_component_spec(id) + "/feed.json"@
}

/// `<root>/entries/by_id/<escaped id>.json`
pub open spec fn entry_by_id_path_spec(root: Seq<char>, id: Seq<char>) -> Seq<char> {
    root + "/entries/by_id/"@ + id_component_spec(id) + ".json"@
}

/// `<root>/entries/by_feed/<escaped feed>/<escaped id>.json`
pub open spec fn entry_by_feed_path_spec(root: Seq<char>, feed: Seq<char>, id: Seq<char>) -> Seq<
    char,
> {
    root + "/entries/by_feed/"@ + id_component_spec(feed) + "/"@ + id_component_spec(id) + ".json"@
}

/// `<root>/schedule/<escaped feed>/last_ok.txt`
pub open spec fn last_ok_path_spec(root: Seq<char>, feed: Seq<char>) -> Seq<char> {
    root + "/schedule/"@ + id_component_spec(feed) + "/last_ok.txt"@
}

impl FsRepo {
    /// A repository rooted at `root`. The path is not created eagerly.
    pub fn new(root: String) -> (r: Self)
        ensures
            r.root@ == root@,
    {
        FsRepo { root }
    }

    /// Start an "active" no-op transaction.
    pub fn begin_tx(&self) -> (r: FsTx)
        ensures
            r.active,
    {
        FsTx { active: true }
    }

    /// `<root>/feeds`
    pub fn feeds_dir(&self) -> (r: String)
        ensures
            r@ == self.root@ + "/feeds"@,
    {
        let mut p = self.root.clone();
        p.append("/feeds");
        p
    }

    /// `<root>/entries/by_id`
    pub fn entries_by_id_dir(&self) -> (r: String)
        ensures
            r@ == self.root@ + "/entries/by_id"@,
    {
        let mut p = self.root.clone();
        p.append("/entries/by_id");
        p
    }

    /// `<root>/entries/by_feed/<escaped feed>`
    pub fn entries_by_feed_dir(&self, feed: &FeedId) -> (r: String)
        ensures
            r@ == self.root@ + "/entries/by_feed/"@ + id_component_spec(feed@),
    {
        let mut p = self.root.clone();
        p.append("/entries/by_feed/");
        let e = crate::fs_util::escape_id(feed.as_str());
        p.append(e.as_str());
        p
    }

    /// `<root>/schedule/<escaped feed>`
    pub fn schedule_dir(&self, feed: &FeedId) -> (r: String)
        ensures
            r@ == self.root@ + "/schedule/"@ + id_component_spec(feed@),
    {
        let mut p = self.root.clone();
        p.append("/schedule/");
        let e = crate::fs_util::escape_id(feed.as_str());
        p.append(e.as_str());
        p
    }

    /// `<root>/feeds/<escaped id>/feed.json`
    pub fn feed_path(&self, id: &FeedId) -> (r: String)
        ensures
            r@ == feed_path_spec(self.root@, id@),
    {
        let mut p = self.root.clone();
        p.append("/feeds/");
        let e = crate::fs_util::escape_id(id.as_str());
        p.append(e.as_str());
        p.append("/feed.json");
        p
    }

    /// `<root>/entries/by_id/<escaped id>.json`
    pub fn entry_by_id_path(&self, id: &EntryId) -> (r: String)
        ensures
            r@ == entry_by_id_path_spec(self.root@, id@),
    {
        let mut p = self.root.clone();
        p.append("/entries/by_id/");
        let e = crate::fs_util::escape_id(id.as_str());
        p.append(e.as_str());
        p.append(".json");
        p
    }

    /// `<root>/entries/by_feed/<escaped feed>/<escaped id>.json`
    pub fn entry_by_feed_path(&self, feed: &FeedId, id: &EntryId) -> (r: String)
        ensures
            r@ == entry_by_feed_path_spec(self.root@, feed@, id@),
    {
        let mut p = self.entries_by_feed_dir(feed);
        p.append("/");
        let e = crate::fs_util::escape_id(id.as_str());
        p.append(e.as_str());
        p.append(".json");
        p
    }

    /// `<root>/schedule/<escaped feed>/last_ok.txt`
    pub fn last_ok_path(&self, feed: &FeedId) -> (r: String)
        ensures
            r@ == last_ok_path_spec(self.root@, feed@),
    {
        let mut p = self.schedule_dir(feed);
        p.append("/last_ok.txt");
        p
    }
}

/// The text stored in a schedule marker file: the timestamp in decimal.
pub fn encode_last_ok(ts: i64) -> (r: String)
    ensures
        r@ == i64_dec_str(ts as int),
{
    i64_to_dec(ts)
}

/// Read a schedule marker file's text back: surrounding whitespace is
/// ignored, blank text means no timestamp, and anything that is not a
/// decimal numeral is a backend failure naming the marker.
pub fn parse_last_ok(text: &str) -> (r: Result<Option<i64>, RepoError>)
    ensures
        trim_spec(text@).len() == 0 ==> r == Result::<Option<i64>, RepoError>::Ok(
            Option::<i64>::None,
        ),
        trim_spec(text@).len() > 0 ==> match parse_i64_spec(trim_spec(text@)) {
            Some(v) => r == Result::<Option<i64>, RepoError>::Ok(Some(v)),
            None => (r matches Err(e) && e matches RepoError::Backend(m) && m@
                == "invalid last_ok timestamp"@),
        },
{
    let t = trim_slice(text);
    if t.is_empty() {
        return Ok(None);
    }
    match parse_i64(t) {
        Some(v) => Ok(Some(v)),
        None => {
            let m = "invalid last_ok timestamp";
            Err(RepoError::Backend(m.to_owned()))
        },
    }
}

/// A decimal numeral holds no whitespace, so trimming leaves it unchanged.
proof fn lemma_trim_of_dec(v: int)
    ensures
        trim_spec(i64_dec_str(v)) == i64_dec_str(v),
{
    let s = i64_dec_str(v);
    if v < 0 {
        crate::strutil::lemma_dec_digits_all_digits((-v) as nat);
        assert(s[0] == '-');
        assert(!is_ws(s[0]));
        assert(is_digit(s[s.len() - 1]));
        assert(!is_ws(s[s.len() - 1]));
    } else {
        crate::strutil::lemma_dec_digits_all_digits(v as nat);
        assert(is_digit(s[0]) && is_digit(s[s.len() - 1]));
        assert(!is_ws(s[0]) && !is_ws(s[s.len() - 1]));
    }
    assert(crate::strutil::first_non_ws(s) == 0);
    assert(crate::strutil::last_non_ws_end(s) == s.len());
    assert(trim_spec(s) =~= s);
}

/// Recording a fetch timestamp and reading the marker back returns exactly
/// that timestamp: the marker format loses nothing.
pub proof fn lemma_last_ok_roundtrip(ts: i64)
    ensures
        trim_spec(i64_dec_str(ts as int)).len() > 0,
        parse_i64_spec(trim_spec(i64_dec_str(ts as int))) == Some(ts),
{
    lemma_trim_of_dec(ts as int);
    lemma_i64_dec_roundtrip(ts);
    if ts >= 0 {
        crate::strutil::lemma_dec_digits_all_digits(ts as nat);
    } else {
        crate::strutil::lemma_dec_digits_all_digits((-(ts as int)) as nat);
    }
}

// ---------------------------------------------------------------------------
// The store as a model: the data directory is a map from paths to file
// texts, and each operation is a pure function on it. The laws below tie
// the path layout and the record codec together; the disk itself is
// trusted only for storing what was written (per-file atomic writes).
// ---------------------------------------------------------------------------

/// The store after `put(feed)`: the feed's record file holds its canonical
/// text.
pub open spec fn store_after_put(
    files: Map<Seq<char>, Seq<char>>,
    root: Seq<char>,
    f: FeedView,
) -> Map<Seq<char>, Seq<char>> {
    files.insert(feed_path_spec(root, f.id), feed_json(f))
}

/// What `get(id)` reads from the store: the parsed record at the feed's
/// path, or nothing when the file is absent.
pub open spec fn store_get(
    files: Map<Seq<char>, Seq<char>>,
    root: Seq<char>,
    id: Seq<char>,
) -> Option<FeedView> {
    if files.contains_key(feed_path_spec(root, id)) {
        parse_feed_spec(files[feed_path_spec(root, id)])
    } else {
        None
    }
}

/// The store after `upsert(entry)`: both the by-id record and the by-feed
/// index copy hold the entry's canonical text.
pub open spec fn store_after_upsert(
    files: Map<Seq<char>, Seq<char>>,
    root: Seq<char>,
    e: EntryView,
) -> Map<Seq<char>, Seq<char>> {
    files.insert(entry_by_id_path_spec(root, e.id), entry_json(e)).insert(
        entry_by_feed_path_spec(root, e.feed, e.id),
        entry_json(e),
    )
}

/// Putting a feed and reading it back by its id returns a record equal on
/// every field, whatever the store held before.
pub proof fn lemma_put_get_roundtrip(
    files: Map<Seq<char>, Seq<char>>,
    root: Seq<char>,
    f: FeedView,
)
    ensures
        store_get(store_after_put(files, root, f), root, f.id) == Some(f),
{
    lemma_feed_roundtrip(f);
}

/// Upserting an unchanged entry again leaves the store exactly as it was
/// after the first upsert: the same two paths hold the same text, so
/// nothing is duplicated and nothing changes.
pub proof fn lemma_upsert_idempotent(
    files: Map<Seq<char>, Seq<char>>,
    root: Seq<char>,
    e: EntryView,
)
    ensures
        store_after_upsert(store_after_upsert(files, root, e), root, e) == store_after_upsert(
            files,
            root,
            e,
        ),
{
    assert_maps_equal!(
        store_after_upsert(store_after_upsert(files, root, e), root, e),
        store_after_upsert(files, root, e),
    );
}

/// The store after `record_fetch_ts(feed, ts)`: the feed's marker file
/// holds the timestamp in decimal.
pub open spec fn store_after_record(
    files: Map<Seq<char>, Seq<char>>,
    root: Seq<char>,
    feed: Seq<char>,
    ts: i64,
) -> Map<Seq<char>, Seq<char>> {
    files.insert(last_ok_path_spec(root, feed), i64_dec_str(ts as int))
}

/// What `last_ok_fetch_ts(feed)` reads from the store: the parsed marker,
/// or nothing when the file is absent or blank.
pub open spec fn store_last_ok(
    files: Map<Seq<char>, Seq<char>>,
    root: Seq<char>,
    feed: Seq<char>,
) -> Option<i64> {
    if files.contains_key(last_ok_path_spec(root, feed)) {
        let t = trim_spec(files[last_ok_path_spec(root, feed)]);
        if t.len() == 0 {
            None
        } else {
            match parse_i64_spec(t) {
                Some(v) => Some(v),
                None => None,
            }
        }
    } else {
        None
    }
}

/// Recording a fetch timestamp and reading it back returns exactly that
/// timestamp, whatever the store held before.
pub proof fn lemma_record_read_roundtrip(
    files: Map<Seq<char>, Seq<char>>,
    root: Seq<char>,
    feed: Seq<char>,
    ts: i64,
)
    ensures
        store_last_ok(store_after_record(files, root, feed, ts), root, feed) == Some(ts),
{
    lemma_last_ok_roundtrip(ts);
}

} // verus!
