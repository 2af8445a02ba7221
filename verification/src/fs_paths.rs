//! Per-feed filesystem layout helpers (pure; no I/O): path strings built
//! from canonical id strings, with URL-safe percent-encoded components.
//!
//! Layout:
//!   `<root>/feeds/<feed>/feed.json`
//!   `<root>/feeds/<feed>/last_blob.bin`
//!   `<root>/feeds/<feed>/entries/<entry>.json`

use vstd::prelude::*;
use crate::ids::{EntryId, FeedId};
use crate::strutil::push_char;
use vstd::string::*;

verus! {

pub open spec fn upper_hex_digit(d: int) -> char {
    if d == 0 { '0' } else if d == 1 { '1' } else if d == 2 { '2' } else if d == 3 { '3' }
    else if d == 4 { '4' } else if d == 5 { '5' } else if d == 6 { '6' } else if d == 7 { '7' }
    else if d == 8 { '8' } else if d == 9 { '9' } else if d == 10 { 'A' } else if d == 11 { 'B' }
    else if d == 12 { 'C' } else if d == 13 { 'D' } else if d == 14 { 'E' } else { 'F' }
}

fn upper_hex_digit_exec(d: u8) -> (c: char)
    requires
        d < 16,
    ensures
        c == upper_hex_digit(d as int),
{
    match d {
        0 => '0',
        1 => '1',
        2 => '2',
        3 => '3',
        4 => '4',
        5 => '5',
        6 => '6',
        7 => '7',
        8 => '8',
        9 => '9',
        10 => 'A',
        11 => 'B',
        12 => 'C',
        13 => 'D',
        14 => 'E',
        _ => 'F',
    }
}

/// Bytes kept verbatim in a URL-safe path component: ASCII alphanumerics
/// and `-`, `_`, `.`.
pub open spec fn is_urlsafe_byte(b: u8) -> bool {
    (48 <= b && b <= 57) || (65 <= b && b <= 90) || (97 <= b && b <= 122) || b == 45 || b == 95
        || b == 46
}

/// How one byte is percent-encoded: itself when safe, else `%XX`.
pub open spec fn urlsafe_byte(b: u8) -> Seq<char> {
    if is_urlsafe_byte(b) {
        seq![b as char]
    } else {
        seq!['%', upper_hex_digit((b >> 4) as int), upper_hex_digit((b & 0xf) as int)]
    }
}

/// The percent-encoded form of a byte string.
pub open spec fn urlsafe_spec(bytes: Seq<u8>) -> Seq<char>
    decreases bytes.len(),
{
    if bytes.len() == 0 {
        Seq::empty()
    } else {
        urlsafe_byte(bytes[0]) + urlsafe_spec(bytes.drop_first())
    }
}

proof fn lemma_urlsafe_snoc(bytes: Seq<u8>, b: u8)
    ensures
        urlsafe_spec(bytes.push(b)) == urlsafe_spec(bytes) + urlsafe_byte(b),
    decreases bytes.len(),
{
    if bytes.len() == 0 {
        assert(bytes.push(b).drop_first() =~= Seq::<u8>::empty());
        assert(bytes.push(b)[0] == b);
        assert(urlsafe_spec(bytes.push(b)) == urlsafe_byte(b) + urlsafe_spec(Seq::<u8>::empty()));
        assert(urlsafe_spec(bytes.push(b)) =~= urlsafe_byte(b));
        assert(urlsafe_spec(bytes) + urlsafe_byte(b) =~= urlsafe_byte(b));
    } else {
        assert(bytes.push(b).drop_first() =~= bytes.drop_first().push(b));
        assert(bytes.push(b)[0] == bytes[0]);
        lemma_urlsafe_snoc(bytes.drop_first(), b);
        assert(urlsafe_spec(bytes.push(b)) =~= urlsafe_spec(bytes) + urlsafe_byte(b));
    }
}

/// Percent-encode a string into a URL-safe path component.
pub fn urlsafe_component(s: &str) -> (r: String)
    ensures
        r@ == urlsafe_spec(s.spec_bytes()),
{
    let bytes = s.as_bytes_vec();
    let n = bytes.len();
    let mut out = String::new();
    let mut i: usize = 0;
    while i < n
        invariant
            0 <= i <= n,
            n == bytes@.len(),
            bytes@ == s.spec_bytes(),
            out@ == urlsafe_spec(bytes@.subrange(0, i as int)),
        decreases n - i,
    {
        let b = bytes[i];
        if (48 <= b && b <= 57) || (65 <= b && b <= 90) || (97 <= b && b <= 122) || b == 45
            || b == 95 || b == 46 {
            push_char(&mut out, b as char);
        } else {
            let hi = b >> 4;
            let lo = b & 0xf;
            assert(b >> 4 < 16 && b & 0xf < 16) by (bit_vector);
            push_char(&mut out, '%');
            push_char(&mut out, upper_hex_digit_exec(hi));
            push_char(&mut out, upper_hex_digit_exec(lo));
        }
        proof {
            let pre = bytes@.subrange(0, i as int);
            assert(bytes@.subrange(0, i + 1) =~= pre.push(bytes@[i as int]));
            lemma_urlsafe_snoc(pre, bytes@[i as int]);
            assert(out@ =~= urlsafe_spec(bytes@.subrange(0, i + 1)));
        }
        i += 1;
    }
    proof {
        assert(bytes@.subrange(0, n as int) =~= bytes@);
    }
    out
}

/// `<root>/feeds/<encoded feed id>`
pub open spec fn feed_dir_spec(root: Seq<char>, feed: Seq<char>) -> Seq<char> {
    root + "/feeds/"@ + urlsafe_spec(vstd::utf8::encode_utf8(feed))
}

/// Path layout builders. No filesystem access; string building only.
pub struct FsPaths;

impl FsPaths {
    /// `<root>/feeds/<feed_id>`
    pub fn feed_dir(root: &str, feed: &FeedId) -> (r: String)
        ensures
            r@ == feed_dir_spec(root@, feed@),
    {
        let mut p = root.to_owned();
        p.append("/feeds/");
        let c = urlsafe_component(feed.as_str());
        p.append(c.as_str());
        p
    }

    /// `<root>/feeds/<feed_id>/feed.json`
    pub fn feed_json(root: &str, feed: &FeedId) -> (r: String)
        ensures
            r@ == feed_dir_spec(root@, feed@) + "/feed.json"@,
    {
        let mut p = Self::feed_dir(root, feed);
        p.append("/feed.json");
        p
    }

    /// `<root>/entries/by_id/<entry>.json` (kept for the legacy flat layout)
    pub fn entry_id_file(root: &str, entry: &EntryId) -> (r: String)
        ensures
            r@ == root@ + "/entries/by_id/"@ + urlsafe_spec(vstd::utf8::encode_utf8(entry@))
                + ".json"@,
    {
        let mut p = root.to_owned();
        p.append("/entries/by_id/");
        let c = urlsafe_component(entry.as_str());
        p.append(c.as_str());
        p.append(".json");
        p
    }

    /// `<root>/feeds/<feed_id>/entries`
    pub fn entry_by_feed_dir(root: &str, feed: &FeedId) -> (r: String)
        ensures
            r@ == feed_dir_spec(root@, feed@) + "/entries"@,
    {
        let mut p = Self::feed_dir(root, feed);
        p.append("/entries");
        p
    }

    /// `<root>/feeds/<feed_id>/entries/<entry_id>.json`
    pub fn entry_by_feed_file(root: &str, feed: &FeedId, entry: &EntryId) -> (r: String)
        ensures
            r@ == feed_dir_spec(root@, feed@) + "/entries/"@ + urlsafe_spec(
                vstd::utf8::encode_utf8(entry@),
            ) + ".json"@,
    {
        let mut p = Self::entry_by_feed_dir(root, feed);
        p.append("/");
        let c = urlsafe_component(entry.as_str());
        p.append(c.as_str());
        p.append(".json");
        proof {
            assert(p@ =~= feed_dir_spec(root@, feed@) + "/entries/"@ + urlsafe_spec(
                vstd::utf8::encode_utf8(entry@),
            ) + ".json"@) by {
                assert(("/entries"@ + "/"@) =~= "/entries/"@) by {
                    reveal_strlit("/entries");
                    reveal_strlit("/");
                    reveal_strlit("/entries/");
                }
            }
        }
        p
    }

    /// `<root>/feeds/<feed_id>/last_blob.bin`
    pub fn last_blob(root: &str, feed: &FeedId) -> (r: String)
        ensures
            r@ == feed_dir_spec(root@, feed@) + "/last_blob.bin"@,
    {
        let mut p = Self::feed_dir(root, feed);
        p.append("/last_blob.bin");
        p
    }

    /// Alias for the per-feed entry path:
    /// `<root>/feeds/<feed_id>/entries/<entry_id>.json`
    pub fn entry_json(root: &str, feed: &FeedId, entry: &EntryId) -> (r: String)
        ensures
            r@ == feed_dir_spec(root@, feed@) + "/entries/"@ + urlsafe_spec(
                vstd::utf8::encode_utf8(entry@),
            ) + ".json"@,
    {
        Self::entry_by_feed_file(root, feed, entry)
    }
}

} // verus!
