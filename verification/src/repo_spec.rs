//! Parsing and validation of repository selection strings such as
//! `fs:/var/lib/data` or `sqlite:/path/to.db`. Pure parsing only; backends
//! are opened by the caller.

use vstd::prelude::*;
use crate::strutil::{push_char, trim_spec, trim_slice};

verus! {

/// Supported repository kinds.
#[derive(Debug, Clone, Copy, PartialEq, Eq, Structural)]
pub enum RepoKind {
    Fs,
    Sqlite,
}

/// ASCII lower-casing of one character.
pub open spec fn lower_char(c: char) -> char {
    if 65 <= c as u32 && c as u32 <= 90 {
        (((c as u32) + 32) as u8) as char
    } else {
        c
    }
}

pub open spec fn lower_seq(s: Seq<char>) -> Seq<char> {
    s.map_values(|c: char| lower_char(c))
}

/// ASCII lower-casing of a string.
pub fn to_ascii_lower(s: &str) -> (r: String)
    ensures
        r@ == lower_seq(s@),
{
    let n = s.unicode_len();
    let mut out = String::new();
    let mut i: usize = 0;
    while i < n
        invariant
            0 <= i <= n,
            n == s@.len(),
            out@ == s@.subrange(0, i as int).map_values(|c: char| lower_char(c)),
        decreases n - i,
    {
        let c = s.get_char(i);
        let u = c as u32;
        let e: char = if 65 <= u && u <= 90 {
            ((u + 32) as u8) as char
        } else {
            c
        };
        push_char(&mut out, e);
        proof {
            assert(out@ =~= s@.subrange(0, i + 1).map_values(|c: char| lower_char(c)));
        }
        i += 1;
    }
    proof {
        assert(s@.subrange(0, n as int) =~= s@);
    }
    out
}

/// The repository kind a scheme prefix denotes, case-insensitively.
pub open spec fn kind_of_prefix(p: Seq<char>) -> Option<RepoKind> {
    if lower_seq(p) == "fs"@ {
        Some(RepoKind::Fs)
    } else if lower_seq(p) == "sqlite"@ {
        Some(RepoKind::Sqlite)
    } else {
        None
    }
}

impl RepoKind {
    /// The kind a scheme prefix denotes (`fs`, `sqlite`), case-insensitive.
    pub fn from_prefix(prefix: &str) -> (r: Option<RepoKind>)
        ensures
            r == kind_of_prefix(prefix@),
    {
        let low = to_ascii_lower(prefix);
        if crate::strutil::str_equal(low.as_str(), "fs") {
            Some(RepoKind::Fs)
        } else if crate::strutil::str_equal(low.as_str(), "sqlite") {
            Some(RepoKind::Sqlite)
        } else {
            None
        }
    }

    /// The stable name of the kind.
    pub fn as_str(self) -> (r: &'static str)
        ensures
            self is Fs ==> r@ == "fs"@,
            self is Sqlite ==> r@ == "sqlite"@,
    {
        match self {
            RepoKind::Fs => "fs",
            RepoKind::Sqlite => "sqlite",
        }
    }
}

/// Index of the first `:` in `s` at or after `i`.
pub open spec fn find_colon(s: Seq<char>, i: int) -> Option<int>
    decreases s.len() - i when 0 <= i <= s.len()
{
    if i >= s.len() {
        None
    } else if s[i] == ':' {
        Some(i)
    } else {
        find_colon(s, i + 1)
    }
}

/// What parsing a repository spec yields: its kind and target, or the
/// message naming what is wrong (no separator, unknown kind, empty target).
pub open spec fn repo_spec_parse(s: Seq<char>) -> Result<(RepoKind, Seq<char>), Seq<char>> {
    let t = trim_spec(s);
    match find_colon(t, 0) {
        None => Err("missing ':' separator"@),
        Some(k) => {
            let prefix = t.subrange(0, k);
            let rest = t.subrange(k + 1, t.len() as int);
            match kind_of_prefix(prefix) {
                None => Err("unknown repo kind"@),
                Some(kind) => if rest.len() == 0 {
                    Err("empty repo target"@)
                } else {
                    Ok((kind, rest))
                },
            }
        },
    }
}

/// Parsed repository specification, e.g. `fs:/path`, `sqlite:/path/to.db`.
#[derive(Debug, Clone, PartialEq, Eq)]
pub struct RepoSpec {
    pub kind: RepoKind,
    pub target: String,
}

proof fn lemma_find_colon_bounds(s: Seq<char>, i: int)
    requires
        0 <= i <= s.len(),
    ensures
        match find_colon(s, i) {
            Some(k) => i <= k < s.len() && s[k] == ':' && forall|m: int|
                i <= m < k ==> s[m] != ':',
            None => forall|m: int| i <= m < s.len() ==> s[m] != ':',
        },
    decreases s.len() - i,
{
    if i < s.len() && s[i] != ':' {
        lemma_find_colon_bounds(s, i + 1);
    }
}

impl RepoSpec {
    /// Parse a repository spec: `<kind>:<target>` with surrounding
    /// whitespace ignored and the kind case-insensitive.
    pub fn parse(s: &str) -> (r: Result<RepoSpec, String>)
        ensures
            match r {
                Ok(sp) => repo_spec_parse(s@) matches Ok(p) && sp.kind == p.0 && sp.target@ == p.1,
                Err(m) => repo_spec_parse(s@) matches Err(em) && m@ == em,
            },
    {
        let t = trim_slice(s);
        let ghost tv = t@;
        proof {
            lemma_find_colon_bounds(tv, 0);
        }
        let n = t.unicode_len();
        let mut i: usize = 0;
        while i < n && t.get_char(i) != ':'
            invariant
                0 <= i <= n,
                n == tv.len(),
                tv == t@,
                forall|m: int| 0 <= m < i ==> tv[m] != ':',
            decreases n - i,
        {
            i += 1;
        }
        if i == n {
            proof {
                assert(find_colon(tv, 0) is None) by {
                    lemma_find_colon_bounds(tv, 0);
                    match find_colon(tv, 0) {
                        Some(k) => {
                            assert(tv[k] != ':');
                        },
                        None => {},
                    }
                }
            }
            let m = "missing ':' separator";
            return Err(m.to_owned());
        }
        proof {
            assert(tv[i as int] == ':');
            lemma_find_colon_bounds(tv, 0);
            assert(find_colon(tv, 0) == Some(i as int)) by {
                match find_colon(tv, 0) {
                    Some(k) => {
                        if k < i {
                            assert(tv[k] != ':');
                        }
                        if k > i {
                            assert(tv[i as int] != ':');
                        }
                    },
                    None => {
                        assert(tv[i as int] != ':');
                    },
                }
            }
        }
        let prefix = t.substring_char(0, i);
        let rest = t.substring_char(i + 1, n);
        let kind = match RepoKind::from_prefix(prefix) {
            None => {
                let m = "unknown repo kind";
                return Err(m.to_owned());
            },
            Some(k) => k,
        };
        if rest.is_empty() {
            let m = "empty repo target";
            return Err(m.to_owned());
        }
        Ok(RepoSpec { kind, target: rest.to_owned() })
    }
}

impl core::str::FromStr for RepoSpec {
    type Err = String;

    fn from_str(s: &str) -> Result<RepoSpec, String> {
        RepoSpec::parse(s)
    }
}

} // verus!
