//! Opaque identifiers for feeds and entries, stable across backends.
//! Construction rules are centralized here: a feed id is its trimmed source
//! URL behind a `url:` prefix; an entry id prefers a trimmed guid, then a
//! trimmed link, then a 64-bit stable hash of (feed id, title, published_ts).

use vstd::prelude::*;
use core::hash::Hasher;
use std::collections::hash_map::DefaultHasher;
use vstd::std_specs::hash::DefaultHasherAdditionalSpecFns;
use crate::strutil::{
    trim_spec, trim_slice, lemma_trim_idempotent, i64_dec_str, i64_to_dec, push_char,
};
use vstd::utf8::encode_utf8;

verus! {

/// Opaque identifier for a feed (string form for portability).
#[derive(Debug, Clone, PartialEq, Eq, PartialOrd, Ord, Hash)]
pub struct FeedId(String);

/// Opaque identifier for a feed entry (string form for portability).
#[derive(Debug, Clone, PartialEq, Eq, PartialOrd, Ord, Hash)]
pub struct EntryId(String);

impl View for FeedId {
    type V = Seq<char>;

    closed spec fn view(&self) -> Seq<char> {
        self.0@
    }
}

impl View for EntryId {
    type V = Seq<char>;

    closed spec fn view(&self) -> Seq<char> {
        self.0@
    }
}

pub open spec fn url_prefix() -> Seq<char> {
    seq!['u', 'r', 'l', ':']
}

pub open spec fn guid_prefix() -> Seq<char> {
    seq!['g', 'u', 'i', 'd', ':']
}

pub open spec fn link_prefix() -> Seq<char> {
    seq!['l', 'i', 'n', 'k', ':']
}

pub open spec fn hash_prefix() -> Seq<char> {
    seq!['h', 'a', 's', 'h', ':']
}

/// The canonical feed id for a source URL: `url:` before the trimmed URL.
pub open spec fn feed_id_from_url_spec(url: Seq<char>) -> Seq<char> {
    url_prefix() + trim_spec(url)
}

pub open spec fn hex_digit(d: int) -> char {
    if d == 0 { '0' } else if d == 1 { '1' } else if d == 2 { '2' } else if d == 3 { '3' }
    else if d == 4 { '4' } else if d == 5 { '5' } else if d == 6 { '6' } else if d == 7 { '7' }
    else if d == 8 { '8' } else if d == 9 { '9' } else if d == 10 { 'a' } else if d == 11 { 'b' }
    else if d == 12 { 'c' } else if d == 13 { 'd' } else if d == 14 { 'e' } else { 'f' }
}

/// The 16 lower-case hex digits of `h`, most significant nibble first.
pub open spec fn u64_hex16(h: u64) -> Seq<char> {
    Seq::new(16, |i: int| hex_digit(((h >> (((15 - i) * 4) as u64)) & 0xf) as int))
}

pub fn hex_digit_exec(d: u8) -> (c: char)
    requires
        d < 16,
    ensures
        c == hex_digit(d as int),
{
    match d {
        0 => '0',
        1 => '1',
        2 => '2',
        3 => '3',
        4 => '4',
        5 => '5',
        6 => '6',
        7 => '7',
        8 => '8',
        9 => '9',
        10 => 'a',
        11 => 'b',
        12 => 'c',
        13 => 'd',
        14 => 'e',
        _ => 'f',
    }
}

/// The 16 hex digits of `h`, as `format!("{h:016x}")` renders them.
pub fn u64_hex16_exec(h: u64) -> (s: String)
    ensures
        s@ == u64_hex16(h),
{
    let mut s = String::new();
    let mut i: usize = 0;
    while i < 16
        invariant
            0 <= i <= 16,
            s@ == u64_hex16(h).subrange(0, i as int),
        decreases 16 - i,
    {
        let sh: u64 = ((15 - i) as u64) * 4;
        let d: u8 = ((h >> sh) & 0xf) as u8;
        assert((h >> sh) & 0xf < 16) by (bit_vector);
        push_char(&mut s, hex_digit_exec(d));
        proof {
            assert(s@ =~= u64_hex16(h).subrange(0, i + 1));
        }
        i += 1;
    }
    proof {
        assert(s@ =~= u64_hex16(h));
    }
    s
}

/// The byte chunks fed to the hasher when an entry id falls back to the
/// stable hash: the feed id, then a tagged optional title, then a tagged
/// optional publication timestamp (rendered in decimal).
pub open spec fn entry_hash_writes(
    feed: Seq<char>,
    title: Option<Seq<char>>,
    ts: Option<i64>,
) -> Seq<Seq<u8>> {
    seq![encode_utf8(feed)] + (match title {
        Some(t) => seq![seq![1u8], encode_utf8(t)],
        None => seq![seq![0u8]],
    }) + (match ts {
        Some(v) => seq![seq![1u8], encode_utf8(i64_dec_str(v as int))],
        None => seq![seq![0u8]],
    })
}

/// The stable 64-bit hash behind `hash:` entry ids.
pub open spec fn entry_hash(feed: Seq<char>, title: Option<Seq<char>>, ts: Option<i64>) -> u64 {
    DefaultHasher::spec_finish(entry_hash_writes(feed, title, ts))
}

/// The canonical entry id for the given parts: a non-blank guid wins, then a
/// non-blank link, then the stable hash of (feed id, title, published_ts).
pub open spec fn entry_id_from_parts_spec(
    feed: Seq<char>,
    guid: Option<Seq<char>>,
    link: Option<Seq<char>>,
    title: Option<Seq<char>>,
    ts: Option<i64>,
) -> Seq<char> {
    if guid is Some && trim_spec(guid->0).len() > 0 {
        guid_prefix() + trim_spec(guid->0)
    } else if link is Some && trim_spec(link->0).len() > 0 {
        link_prefix() + trim_spec(link->0)
    } else {
        hash_prefix() + u64_hex16(entry_hash(feed, title, ts))
    }
}

pub open spec fn opt_str_view(o: Option<&str>) -> Option<Seq<char>> {
    match o {
        Some(s) => Some(s@),
        None => None,
    }
}

impl FeedId {
    /// Access the underlying stable string form.
    pub fn as_str(&self) -> (r: &str)
        ensures
            r@ == self@,
    {
        self.0.as_str()
    }

    /// Construct from an arbitrary string (caller ensures stability).
    pub fn new(s: String) -> (r: Self)
        ensures
            r@ == s@,
    {
        FeedId(s)
    }

    /// Canonical constructor from a source URL: `url:` + the trimmed URL.
    pub fn from_url(url: &str) -> (r: Self)
        ensures
            r@ == feed_id_from_url_spec(url@),
    {
        let t = trim_slice(url);
        let mut s = String::new();
        push_char(&mut s, 'u');
        push_char(&mut s, 'r');
        push_char(&mut s, 'l');
        push_char(&mut s, ':');
        s.append(t);
        proof {
            assert(s@ =~= url_prefix() + trim_spec(url@));
        }
        FeedId(s)
    }
}

impl EntryId {
    /// Access the underlying stable string form.
    pub fn as_str(&self) -> (r: &str)
        ensures
            r@ == self@,
    {
        self.0.as_str()
    }

    /// Construct from an arbitrary string (caller ensures stability).
    pub fn new(s: String) -> (r: Self)
        ensures
            r@ == s@,
    {
        EntryId(s)
    }

    /// Canonical constructor from available entry parts, preferring
    /// guid over link over the stable hash.
    pub fn from_parts(
        feed: &FeedId,
        guid: Option<&str>,
        link: Option<&str>,
        title: Option<&str>,
        published_ts: Option<i64>,
    ) -> (r: Self)
        ensures
            r@ == entry_id_from_parts_spec(
                feed@,
                opt_str_view(guid),
                opt_str_view(link),
                opt_str_view(title),
                published_ts,
            ),
    {
        if let Some(g) = guid {
            let t = trim_slice(g);
            if !t.is_empty() {
                let mut s = String::new();
                push_char(&mut s, 'g');
                push_char(&mut s, 'u');
                push_char(&mut s, 'i');
                push_char(&mut s, 'd');
                push_char(&mut s, ':');
                s.append(t);
                proof {
                    assert(s@ =~= guid_prefix() + trim_spec(g@));
                }
                return EntryId(s);
            }
        }
        if let Some(l) = link {
            let t = trim_slice(l);
            if !t.is_empty() {
                let mut s = String::new();
                push_char(&mut s, 'l');
                push_char(&mut s, 'i');
                push_char(&mut s, 'n');
                push_char(&mut s, 'k');
                push_char(&mut s, ':');
                s.append(t);
                proof {
                    assert(s@ =~= link_prefix() + trim_spec(l@));
                }
                return EntryId(s);
            }
        }
        let h = hash_parts(feed.as_str(), title, published_ts);
        let hex = u64_hex16_exec(h);
        let mut s = String::new();
        push_char(&mut s, 'h');
        push_char(&mut s, 'a');
        push_char(&mut s, 's');
        push_char(&mut s, 'h');
        push_char(&mut s, ':');
        s.append(hex.as_str());
        proof {
            assert(s@ =~= hash_prefix() + u64_hex16(h));
        }
        EntryId(s)
    }
}

/// The stable hash of (feed id, title, published_ts), computed with the
/// standard library's deterministic default hasher.
fn hash_parts(feed: &str, title: Option<&str>, ts: Option<i64>) -> (h: u64)
    ensures
        h == entry_hash(feed@, opt_str_view(title), ts),
{
    let mut hasher = DefaultHasher::new();
    hasher.write(feed.as_bytes());
    match title {
        Some(t) => {
            let tag: [u8; 1] = [1u8];
            hasher.write(tag.as_slice());
            hasher.write(t.as_bytes());
        },
        None => {
            let tag: [u8; 1] = [0u8];
            hasher.write(tag.as_slice());
        },
    }
    match ts {
        Some(v) => {
            let tag: [u8; 1] = [1u8];
            hasher.write(tag.as_slice());
            let d = i64_to_dec(v);
            hasher.write(d.as_str().as_bytes());
        },
        None => {
            let tag: [u8; 1] = [0u8];
            hasher.write(tag.as_slice());
        },
    }
    proof {
        assert(hasher@ =~= entry_hash_writes(feed@, opt_str_view(title), ts)) by {
            assert(seq![1u8] =~= [1u8]@);
            assert(seq![0u8] =~= [0u8]@);
        }
    }
    hasher.finish()
}

/// A feed id does not depend on surrounding whitespace in the source URL:
/// trimming the URL first yields the same id.
pub proof fn lemma_from_url_trim_insensitive(url: Seq<char>)
    ensures
        feed_id_from_url_spec(trim_spec(url)) == feed_id_from_url_spec(url),
{
    lemma_trim_idempotent(url);
}

/// With no usable guid or link, the entry id is a function of exactly
/// (feed id, title, published_ts): the same three inputs always yield the
/// same id, on every call.
pub proof fn lemma_entry_id_hash_deterministic(
    feed: Seq<char>,
    title: Option<Seq<char>>,
    ts: Option<i64>,
)
    ensures
        entry_id_from_parts_spec(feed, None, None, title, ts) == hash_prefix() + u64_hex16(
            entry_hash(feed, title, ts),
        ),
{
}

} // verus!
