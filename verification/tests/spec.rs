// Validate repository spec parsing (no I/O, no backend behavior).

use rssify::repo_spec::{RepoKind, RepoSpec};
use std::str::FromStr;

#[test]
fn parses_fs_and_sqlite_specs() {
    let fs = RepoSpec::from_str("fs:/var/lib/rssify").unwrap();
    assert_eq!(fs.kind, RepoKind::Fs);
    assert_eq!(fs.target, "/var/lib/rssify");

    let fs_rel = RepoSpec::from_str("Fs:./data").unwrap(); // case-insensitive
    assert_eq!(fs_rel.kind, RepoKind::Fs);
    assert_eq!(fs_rel.target, "./data");

    let db = RepoSpec::from_str("sqlite:/var/lib/rssify/db.sqlite").unwrap();
    assert_eq!(db.kind, RepoKind::Sqlite);
    assert_eq!(db.target, "/var/lib/rssify/db.sqlite");
}

#[test]
fn rejects_bad_specs() {
    assert!(RepoSpec::from_str("unknown:/x").is_err());
    assert!(RepoSpec::from_str("fs:").is_err());
    assert!(RepoSpec::from_str("sqlite").is_err());
    assert!(RepoSpec::from_str("nocolon").is_err());
}

#[test]
fn reports_each_failure_kind() {
    assert_eq!(RepoSpec::parse("nocolon").unwrap_err(), "missing ':' separator");
    assert_eq!(RepoSpec::parse("weird:/x").unwrap_err(), "unknown repo kind");
    assert_eq!(RepoSpec::parse("fs:").unwrap_err(), "empty repo target");
}

#[test]
fn selector_defaults_to_fs_without_scheme() {
    match rssify::repo_selector::parse_repo_spec("some/plain/path").unwrap() {
        rssify::repo_selector::RepoSpec::Fs(t) => assert_eq!(t, "some/plain/path"),
        other => panic!("expected fs selector, got {other:?}"),
    }
    match rssify::repo_selector::parse_repo_spec("SQLite:db.sqlite").unwrap() {
        rssify::repo_selector::RepoSpec::Sqlite(t) => assert_eq!(t, "db.sqlite"),
        other => panic!("expected sqlite selector, got {other:?}"),
    }
    match rssify::repo_selector::parse_repo_spec("sqlite::memory:").unwrap() {
        rssify::repo_selector::RepoSpec::Sqlite(t) => assert_eq!(t, ":memory:"),
        other => panic!("expected sqlite selector, got {other:?}"),
    }
    let err = rssify::repo_selector::parse_repo_spec("ftp:x").unwrap_err();
    match err {
        rssify::error::RepoError::Backend(m) => {
            assert_eq!(m, "unknown repo scheme: ftp");
        },
        other => panic!("expected backend error, got {other:?}"),
    }
}
