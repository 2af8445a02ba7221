// Verify precedence for repository resolution without mutating the process
// environment: the lookup is injected.

use rssify::store_cfg::{resolve_store_spec_with_env, ENV_REPO};

#[test]
fn precedence_flag_over_env() {
    let got = resolve_store_spec_with_env(
        |_k: &str| Some("fs:/env".to_string()),
        Some("fs:/flag".to_string()),
    );
    assert_eq!(got, "fs:/flag");
}

#[test]
fn precedence_env_over_default() {
    let got = resolve_store_spec_with_env(
        |k: &str| if k == ENV_REPO { Some("fs:/env".to_string()) } else { None },
        None,
    );
    assert_eq!(got, "fs:/env");
}

#[test]
fn default_when_neither_present() {
    let got = resolve_store_spec_with_env(|_k: &str| None, None);
    assert_eq!(got, "fs:.");
}

#[test]
fn empty_env_ignored() {
    let got = resolve_store_spec_with_env(|_k: &str| Some("".to_string()), None);
    assert_eq!(got, "fs:.");
}

#[test]
fn env_value_is_trimmed() {
    let got = resolve_store_spec_with_env(|_k: &str| Some("  fs:/env  ".to_string()), None);
    assert_eq!(got, "fs:/env");
}
