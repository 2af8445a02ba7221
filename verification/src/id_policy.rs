//! Small, pure utility for entry id selection when the content hash is
//! computed upstream: precedence is guid over link over the given hash.

use vstd::prelude::*;
use crate::strutil::{trim_spec, trim_slice};

verus! {

/// The trimmed string when it is non-blank.
pub open spec fn non_empty_spec(s: Seq<char>) -> Option<Seq<char>> {
    if trim_spec(s).len() == 0 {
        None
    } else {
        Some(trim_spec(s))
    }
}

/// The trimmed slice of `s`, or `None` when `s` is blank.
pub fn non_empty<'a>(s: &'a str) -> (r: Option<&'a str>)
    ensures
        match r {
            Some(t) => non_empty_spec(s@) == Some(t@),
            None => non_empty_spec(s@) is None,
        },
{
    let t = trim_slice(s);
    if t.is_empty() {
        None
    } else {
        Some(t)
    }
}

/// The identifier `choose_id` picks: a non-blank guid (trimmed), else a
/// non-blank link (trimmed), else the given content hash unchanged.
pub open spec fn choose_id_spec(
    guid: Option<Seq<char>>,
    link: Option<Seq<char>>,
    content_hash: Seq<char>,
) -> Seq<char> {
    if guid is Some && trim_spec(guid->0).len() > 0 {
        trim_spec(guid->0)
    } else if link is Some && trim_spec(link->0).len() > 0 {
        trim_spec(link->0)
    } else {
        content_hash
    }
}

/// Choose a stable entry identifier by precedence: non-empty `guid`, else
/// non-empty `link`, else the externally computed `content_hash`.
pub fn choose_id(guid: Option<&str>, link: Option<&str>, content_hash: &str) -> (r: String)
    ensures
        r@ == choose_id_spec(
            crate::ids::opt_str_view(guid),
            crate::ids::opt_str_view(link),
            content_hash@,
        ),
{
    if let Some(g) = guid {
        if let Some(t) = non_empty(g) {
            return t.to_owned();
        }
    }
    if let Some(l) = link {
        if let Some(t) = non_empty(l) {
            return t.to_owned();
        }
    }
    content_hash.to_owned()
}

} // verus!
