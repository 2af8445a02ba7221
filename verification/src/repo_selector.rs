//! Parse a `--repo` argument into a backend selector without trait
//! objects. Accepts `fs:` and `sqlite:` schemes, case-insensitively; a
//! string with no scheme selects the filesystem backend. No I/O here;
//! opening happens in the caller.

use vstd::prelude::*;
use crate::error::RepoError;
use crate::repo_spec::{find_colon, lower_seq, to_ascii_lower};
use crate::strutil::str_equal;

verus! {

/// A parsed repository selector: the backend and its target string.
#[derive(Debug, Clone)]
pub enum RepoSpec<'a> {
    Fs(&'a str),
    Sqlite(&'a str),
}

/// How a selector string splits: the scheme before the first colon and the
/// rest after it, or the scheme `fs` with the whole string when there is no
/// colon.
pub open spec fn selector_split(s: Seq<char>) -> (Seq<char>, Seq<char>) {
    match find_colon(s, 0) {
        Some(k) => (s.subrange(0, k), s.subrange(k + 1, s.len() as int)),
        None => ("fs"@, s),
    }
}

/// What parsing a selector yields, over its split: `sqlite` and `fs` (or
/// an empty scheme) select a backend; any other scheme is a backend error.
pub open spec fn selector_parse(s: Seq<char>) -> Result<(bool, Seq<char>), Seq<char>> {
    let (scheme, rest) = selector_split(s);
    if lower_seq(scheme) == "sqlite"@ {
        Ok((true, rest))
    } else if lower_seq(scheme) == "fs"@ || lower_seq(scheme) =~= Seq::<char>::empty() {
        Ok((false, rest))
    } else {
        Err("unknown repo scheme: "@ + lower_seq(scheme))
    }
}

proof fn lemma_find_colon_props(s: Seq<char>, i: int)
    requires
        0 <= i <= s.len(),
    ensures
        match find_colon(s, i) {
            Some(k) => i <= k < s.len() && s[k] == ':' && forall|m: int|
                i <= m < k ==> s[m] != ':',
            None => forall|m: int| i <= m < s.len() ==> s[m] != ':',
        },
    decreases s.len() - i,
{
    if i < s.len() && s[i] != ':' {
        lemma_find_colon_props(s, i + 1);
    }
}

/// Parse a repository selector. `Ok` holds the chosen backend with its
/// target; an unknown scheme yields `RepoError::Backend` naming it.
pub fn parse_repo_spec<'a>(spec: &'a str) -> (r: Result<RepoSpec<'a>, RepoError>)
    ensures
        match r {
            Ok(sp) => selector_parse(spec@) matches Ok(p) && (match sp {
                RepoSpec::Sqlite(t) => p.0 && t@ == p.1,
                RepoSpec::Fs(t) => !p.0 && t@ == p.1,
            }),
            Err(e) => selector_parse(spec@) matches Err(m) && (e matches RepoError::Backend(s)
                && s@ == m),
        },
{
    let ghost sv = spec@;
    proof {
        lemma_find_colon_props(sv, 0);
    }
    let n = spec.unicode_len();
    let mut i: usize = 0;
    while i < n && spec.get_char(i) != ':'
        invariant
            0 <= i <= n,
            n == sv.len(),
            sv == spec@,
            forall|m: int| 0 <= m < i ==> sv[m] != ':',
        decreases n - i,
    {
        i += 1;
    }
    let scheme: &str;
    let rest: &str;
    if i == n {
        proof {
            assert(find_colon(sv, 0) is None) by {
                lemma_find_colon_props(sv, 0);
                match find_colon(sv, 0) {
                    Some(k) => {
                        assert(sv[k] != ':');
                    },
                    None => {},
                }
            }
        }
        scheme = "fs";
        rest = spec;
    } else {
        proof {
            assert(sv[i as int] == ':');
            lemma_find_colon_props(sv, 0);
            assert(find_colon(sv, 0) == Some(i as int)) by {
                match find_colon(sv, 0) {
                    Some(k) => {
                        if k < i {
                            assert(sv[k] != ':');
                        }
                        if k > i {
                            assert(sv[i as int] != ':');
                        }
                    },
                    None => {
                        assert(sv[i as int] != ':');
                    },
                }
            }
        }
        scheme = spec.substring_char(0, i);
        rest = spec.substring_char(i + 1, n);
    }
    let low = to_ascii_lower(scheme);
    proof {
        if i == n {
            assert(lower_seq("fs"@) =~= "fs"@) by {
                reveal_strlit("fs");
            }
        }
    }
    if str_equal(low.as_str(), "sqlite") {
        Ok(RepoSpec::Sqlite(rest))
    } else if str_equal(low.as_str(), "fs") || low.as_str().is_empty() {
        proof {
            if low@.len() == 0 {
                assert(lower_seq(scheme@) =~= Seq::<char>::empty());
            }
        }
        Ok(RepoSpec::Fs(rest))
    } else {
        let mut msg = String::new();
        msg.append("unknown repo scheme: ");
        msg.append(low.as_str());
        Err(RepoError::Backend(msg))
    }
}

} // verus!
