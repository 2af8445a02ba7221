//! Resolution of the repository target string: an explicit flag wins, then
//! a non-blank environment value (trimmed), then the default `fs:.`. The
//! environment is read through a caller-supplied lookup, which keeps the
//! precedence rule pure and checkable.

use vstd::prelude::*;
use crate::strutil::trim_spec;
use crate::model::opt_string_view;

verus! {

/// Name of the environment variable that selects the repository.
pub const ENV_REPO: &'static str = "RSSIFY_REPO";

/// The resolved store spec for a flag value and an environment value:
/// the flag, else the trimmed non-blank environment value, else `fs:.`.
pub open spec fn resolve_spec(flag: Option<Seq<char>>, env_val: Option<Seq<char>>) -> Seq<char> {
    match flag {
        Some(f) => f,
        None => match env_val {
            Some(e) => if trim_spec(e).len() > 0 {
                trim_spec(e)
            } else {
                "fs:."@
            },
            None => "fs:."@,
        },
    }
}

/// Resolve the store spec from an already-read environment value.
pub fn resolve_store_choice(store_flag: Option<String>, env_val: Option<String>) -> (r: String)
    ensures
        r@ == resolve_spec(opt_string_view(store_flag), opt_string_view(env_val)),
{
    match store_flag {
        Some(s) => s,
        None => {
            match env_val {
                Some(e) => {
                    let t = crate::strutil::trim_chars(e.as_str());
                    if t.as_str().is_empty() {
                        let d = "fs:.";
                        d.to_owned()
                    } else {
                        t
                    }
                },
                None => {
                    let d = "fs:.";
                    d.to_owned()
                },
            }
        },
    }
}

/// Resolve the store spec, reading the environment through `env_get` only
/// when no flag is given. Whatever the lookup returns, the result follows
/// the precedence rule over that returned value.
pub fn resolve_store_spec_with_env<F: Fn(&str) -> Option<String>>(
    env_get: F,
    store_flag: Option<String>,
) -> (r: String)
    requires
        forall|k: &str| #[trigger] call_requires(env_get, (k,)),
    ensures
        store_flag matches Some(f) ==> r == f,
        store_flag is None ==> exists|k: &str, v: Option<String>|
            k@ == "RSSIFY_REPO"@ && #[trigger] call_ensures(env_get, (k,), v) && r@
                == resolve_spec(None, opt_string_view(v)),
{
    match store_flag {
        Some(s) => s,
        None => {
            let key = ENV_REPO;
            let v = env_get(key);
            let ghost vv = v;
            let r = resolve_store_choice(None, v);
            proof {
                assert(key@ == "RSSIFY_REPO"@ && call_ensures(env_get, (key,), vv) && r@
                    == resolve_spec(None, opt_string_view(vv)));
            }
            r
        },
    }
}

} // verus!
