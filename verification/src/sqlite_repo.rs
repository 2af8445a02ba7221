//! SQLite-backed repository: one embedded relational database holding each
//! record as a JSON blob beside its indexed scalar columns.
//!
//! Schema:
//!   `feeds(id TEXT PRIMARY KEY, json TEXT NOT NULL, active INTEGER NOT NULL)`
//!   `entries(id TEXT PRIMARY KEY, feed_id TEXT NOT NULL REFERENCES feeds(id), json TEXT NOT NULL)`
//!   `schedule(feed_id TEXT PRIMARY KEY, last_ok_fetch_ts INTEGER)`
//!
//! The database engine is trusted for storage and transactions; every
//! record that crosses the boundary is printed and parsed by the verified
//! codec, and the listing order is enforced here rather than left to the
//! engine.

use vstd::prelude::*;
use rusqlite::OptionalExtension;
use crate::codec::{
    encode_entry, encode_feed, parse_entry, parse_feed, parse_entry_spec, parse_feed_spec,
};
use crate::error::RepoError;
use crate::ids::{EntryId, FeedId};
use crate::model::{Entry, Feed};
use crate::order::{sort_entries, sort_feeds, sorted_entries, sorted_feeds};
use crate::repo::Tx;

verus! {

#[verifier::external_type_specification]
#[verifier::external_body]
pub struct ExConnection(rusqlite::Connection);

#[verifier::external_type_specification]
#[verifier::external_body]
pub struct ExTransaction<'a>(rusqlite::Transaction<'a>);

/// Relies on rusqlite's Connection::open: opens (creating if missing) the
/// database the DSN names.
#[verifier::external_body]
fn open_connection(dsn: &str) -> Result<rusqlite::Connection, String> {
    rusqlite::Connection::open(dsn).map_err(|e| format!("{e}"))
}

/// Relies on rusqlite's Connection::execute_batch: runs the given SQL
/// statements.
#[verifier::external_body]
fn exec_batch(conn: &rusqlite::Connection, sql: &str) -> Result<(), String> {
    conn.execute_batch(sql).map_err(|e| format!("{e}"))
}

/// Relies on rusqlite's Connection::execute with three text parameters.
#[verifier::external_body]
fn exec_sss(
    conn: &rusqlite::Connection,
    sql: &str,
    a: &str,
    b: &str,
    c: &str,
) -> Result<usize, String> {
    conn.execute(sql, (a, b, c)).map_err(|e| format!("{e}"))
}

/// Relies on rusqlite's Connection::execute with two text parameters and
/// one integer parameter.
#[verifier::external_body]
fn exec_ssi(
    conn: &rusqlite::Connection,
    sql: &str,
    a: &str,
    b: &str,
    c: i64,
) -> Result<usize, String> {
    conn.execute(sql, (a, b, c)).map_err(|e| format!("{e}"))
}

/// Relies on rusqlite's Connection::execute with two text parameters.
#[verifier::external_body]
fn exec_ss(
    conn: &rusqlite::Connection,
    sql: &str,
    a: &str,
    b: &str,
) -> Result<usize, String> {
    conn.execute(sql, (a, b)).map_err(|e| format!("{e}"))
}

/// Relies on rusqlite's Connection::execute with one text parameter and
/// one integer parameter.
#[verifier::external_body]
fn exec_si(
    conn: &rusqlite::Connection,
    sql: &str,
    a: &str,
    b: i64,
) -> Result<usize, String> {
    conn.execute(sql, (a, b)).map_err(|e| format!("{e}"))
}

/// Relies on rusqlite's Connection::query_row and OptionalExtension: the
/// first column of the matching row as text, or `None` with no row.
#[verifier::external_body]
fn query_text_row(
    conn: &rusqlite::Connection,
    sql: &str,
    key: &str,
) -> Result<Option<String>, String> {
    conn.query_row(sql, (key,), |r| r.get::<_, String>(0)).optional().map_err(|e| format!("{e}"))
}

/// Relies on rusqlite's prepare/query_map: the first column of every
/// matching row as text, in the statement's order.
#[verifier::external_body]
fn query_text_rows(conn: &rusqlite::Connection, sql: &str) -> Result<Vec<String>, String> {
    let go = || -> rusqlite::Result<Vec<String>> {
        let mut stmt = conn.prepare(sql)?;
        let rows = stmt.query_map([], |r| r.get::<_, String>(0))?;
        rows.collect()
    };
    go().map_err(|e| format!("{e}"))
}

/// Relies on rusqlite's prepare/query_map with one text parameter: the
/// first column of every matching row as text, in the statement's order.
#[verifier::external_body]
fn query_text_rows_s(
    conn: &rusqlite::Connection,
    sql: &str,
    key: &str,
) -> Result<Vec<String>, String> {
    let go = || -> rusqlite::Result<Vec<String>> {
        let mut stmt = conn.prepare(sql)?;
        let rows = stmt.query_map((key,), |r| r.get::<_, String>(0))?;
        rows.collect()
    };
    go().map_err(|e| format!("{e}"))
}

/// Relies on rusqlite's Connection::query_row and OptionalExtension: the
/// first column of the matching row as a nullable integer, or `None` with
/// no row.
#[verifier::external_body]
fn query_opt_i64_row(
    conn: &rusqlite::Connection,
    sql: &str,
    key: &str,
) -> Result<Option<Option<i64>>, String> {
    conn.query_row(sql, (key,), |r| r.get::<_, Option<i64>>(0)).optional().map_err(|e| format!(
        "{e}",
    ))
}

/// Relies on rusqlite's Connection::unchecked_transaction: begins a
/// database transaction on a shared connection handle.
#[verifier::external_body]
fn begin_transaction(
    conn: &rusqlite::Connection,
) -> Result<rusqlite::Transaction<'_>, String> {
    conn.unchecked_transaction().map_err(|e| format!("{e}"))
}

/// Relies on rusqlite's Transaction::commit: finalizes the transaction.
#[verifier::external_body]
fn commit_transaction(tx: rusqlite::Transaction<'_>) -> Result<(), String> {
    tx.commit().map_err(|e| format!("{e}"))
}

/// Relies on rusqlite's Deref from Transaction to Connection.
#[verifier::external_body]
fn transaction_connection<'a>(tx: &'a rusqlite::Transaction<'a>) -> &'a rusqlite::Connection {
    tx
}

/// A database failure, as `RepoError::Backend` with the driver's message.
fn backend_err(msg: String) -> (r: RepoError)
    ensures
        r is Backend,
{
    RepoError::Backend(msg)
}

/// Decode one stored feed row: the blob must be a canonical feed record.
pub fn decode_feed_text(json: &str) -> (r: Result<Feed, RepoError>)
    ensures
        match r {
            Ok(f) => parse_feed_spec(json@) == Some(f@),
            Err(e) => parse_feed_spec(json@) is None && (e matches RepoError::Ser(m) && m@
                == "malformed feed record"@),
        },
{
    match parse_feed(json) {
        Some(f) => Ok(f),
        None => {
            let m = "malformed feed record";
            Err(RepoError::Ser(m.to_owned()))
        },
    }
}

/// Decode one stored entry row: the blob must be a canonical entry record.
pub fn decode_entry_text(json: &str) -> (r: Result<Entry, RepoError>)
    ensures
        match r {
            Ok(e) => parse_entry_spec(json@) == Some(e@),
            Err(e) => parse_entry_spec(json@) is None && (e matches RepoError::Ser(m) && m@
                == "malformed entry record"@),
        },
{
    match parse_entry(json) {
        Some(e) => Ok(e),
        None => {
            let m = "malformed entry record";
            Err(RepoError::Ser(m.to_owned()))
        },
    }
}

/// Decode every stored feed row, in order; the first malformed blob aborts
/// with `Ser`.
pub fn decode_feed_rows(rows: &Vec<String>) -> (r: Result<Vec<Feed>, RepoError>)
    ensures
        match r {
            Ok(out) => out@.len() == rows@.len() && (forall|i: int|
                0 <= i < out@.len() ==> parse_feed_spec(rows@[i]@) == Some(#[trigger] out@[i]@)),
            Err(e) => e is Ser && (exists|i: int|
                0 <= i < rows@.len() && parse_feed_spec(#[trigger] rows@[i]@) is None),
        },
{
    let mut out: Vec<Feed> = Vec::new();
    let mut i: usize = 0;
    let n = rows.len();
    while i < n
        invariant
            0 <= i <= n,
            n == rows@.len(),
            out@.len() == i,
            forall|k: int|
                0 <= k < i ==> parse_feed_spec(rows@[k]@) == Some(#[trigger] out@[k]@),
        decreases n - i,
    {
        match decode_feed_text(rows[i].as_str()) {
            Ok(f) => {
                out.push(f);
            },
            Err(e) => {
                return Err(e);
            },
        }
        i += 1;
    }
    Ok(out)
}

/// Decode every stored entry row; the first malformed blob aborts with
/// `Ser`.
pub fn decode_entry_rows(rows: &Vec<String>) -> (r: Result<Vec<Entry>, RepoError>)
    ensures
        match r {
            Ok(out) => out@.len() == rows@.len() && (forall|i: int|
                0 <= i < out@.len() ==> parse_entry_spec(rows@[i]@) == Some(#[trigger] out@[i]@)),
            Err(e) => e is Ser && (exists|i: int|
                0 <= i < rows@.len() && parse_entry_spec(#[trigger] rows@[i]@) is None),
        },
{
    let mut out: Vec<Entry> = Vec::new();
    let mut i: usize = 0;
    let n = rows.len();
    while i < n
        invariant
            0 <= i <= n,
            n == rows@.len(),
            out@.len() == i,
            forall|k: int|
                0 <= k < i ==> parse_entry_spec(rows@[k]@) == Some(#[trigger] out@[k]@),
        decreases n - i,
    {
        match decode_entry_text(rows[i].as_str()) {
            Ok(e) => {
                out.push(e);
            },
            Err(e) => {
                return Err(e);
            },
        }
        i += 1;
    }
    Ok(out)
}

/// A transaction handle over the embedded database: a real transaction,
/// implicitly rolled back when dropped without `commit`.
pub struct SqliteTx<'a> {
    pub tx: rusqlite::Transaction<'a>,
    pub active: bool,
}

impl<'a> Tx for SqliteTx<'a> {
    fn is_active(&self) -> (r: bool)
        ensures
            r == self.active,
    {
        self.active
    }
}

impl<'a> SqliteTx<'a> {
    /// Finalize the transaction; on success every write made through it is
    /// durable at once.
    pub fn commit(self) -> (r: Result<(), RepoError>)
        ensures
            r matches Err(e) ==> e is Backend,
    {
        let SqliteTx { tx, active: _ } = self;
        match commit_transaction(tx) {
            Ok(()) => Ok(()),
            Err(e) => Err(backend_err(e)),
        }
    }
}

/// The SQLite-backed repository: one open connection per instance.
pub struct SqliteRepo {
    pub conn: rusqlite::Connection,
}

impl SqliteRepo {
    /// Open a repository at a DSN or path (`:memory:`, `/path.db`) and
    /// ensure its schema exists.
    pub fn open(dsn: &str) -> (r: Result<SqliteRepo, RepoError>)
        ensures
            r matches Err(e) ==> e is Backend,
    {
        let conn = match open_connection(dsn) {
            Ok(c) => c,
            Err(e) => {
                return Err(backend_err(e));
            },
        };
        let schema = "PRAGMA foreign_keys = ON;\nCREATE TABLE IF NOT EXISTS feeds(\n  id     TEXT PRIMARY KEY,\n  json   TEXT NOT NULL,\n  active INTEGER NOT NULL\n);\nCREATE TABLE IF NOT EXISTS entries(\n  id      TEXT PRIMARY KEY,\n  feed_id TEXT NOT NULL,\n  json    TEXT NOT NULL,\n  FOREIGN KEY(feed_id) REFERENCES feeds(id) ON DELETE CASCADE\n);\nCREATE INDEX IF NOT EXISTS idx_entries_feed ON entries(feed_id);\nCREATE TABLE IF NOT EXISTS schedule(\n  feed_id TEXT PRIMARY KEY,\n  last_ok_fetch_ts INTEGER\n);";
        match exec_batch(&conn, schema) {
            Ok(()) => Ok(SqliteRepo { conn }),
            Err(e) => Err(backend_err(e)),
        }
    }

    /// Begin a transaction; pass the handle to repository operations to
    /// group them into one atomic unit.
    pub fn begin_tx(&self) -> (r: Result<SqliteTx<'_>, RepoError>)
        ensures
            r matches Ok(tx) ==> tx.active,
            r matches Err(e) ==> e is Backend,
    {
        match begin_transaction(&self.conn) {
            Ok(tx) => Ok(SqliteTx { tx, active: true }),
            Err(e) => Err(backend_err(e)),
        }
    }

    /// The connection to run a statement on: the transaction's scope when
    /// one is given, else the ambient connection.
    fn ctx<'a>(&'a self, tx: Option<&'a SqliteTx<'a>>) -> &'a rusqlite::Connection {
        match tx {
            Some(t) => transaction_connection(&t.tx),
            None => &self.conn,
        }
    }

    /// Fetch a feed by id. The stored blob is parsed by the verified codec
    /// (see `decode_feed_text`); a missing row is `NotFound`.
    pub fn get(&self, tx: Option<&SqliteTx<'_>>, id: &FeedId) -> (r: Result<Feed, RepoError>)
        ensures
            !(r matches Err(RepoError::Conflict)),
    {
        let conn = self.ctx(tx);
        let sql = "SELECT json FROM feeds WHERE id = ?";
        match query_text_row(conn, sql, id.as_str()) {
            Err(e) => Err(backend_err(e)),
            Ok(None) => Err(RepoError::NotFound),
            Ok(Some(json)) => decode_feed_text(json.as_str()),
        }
    }

    /// Insert or replace a feed, last write wins: one
    /// `INSERT .. ON CONFLICT(id) DO UPDATE` round trip, storing the
    /// canonical JSON blob beside the indexed columns.
    pub fn put(&self, tx: Option<&SqliteTx<'_>>, feed: &Feed) -> (r: Result<(), RepoError>)
        ensures
            r matches Err(e) ==> e is Backend,
    {
        let conn = self.ctx(tx);
        let json = encode_feed(feed);
        let active: i64 = if feed.active {
            1
        } else {
            0
        };
        let sql =
            "INSERT INTO feeds(id, json, active) VALUES(?, ?, ?)\nON CONFLICT(id) DO UPDATE SET json = excluded.json, active = excluded.active";
        match exec_ssi(conn, sql, feed.id.as_str(), json.as_str(), active) {
            Ok(_) => Ok(()),
            Err(e) => Err(backend_err(e)),
        }
    }

    /// List all feeds, ordered by id ascending (enforced here, not left to
    /// the engine); every stored blob must parse (see `decode_feed_rows`).
    pub fn list(&self, tx: Option<&SqliteTx<'_>>) -> (r: Result<Vec<Feed>, RepoError>)
        ensures
            r matches Ok(out) ==> sorted_feeds(out@),
            !(r matches Err(RepoError::Conflict)),
            !(r matches Err(RepoError::NotFound)),
    {
        let conn = self.ctx(tx);
        let sql = "SELECT json FROM feeds ORDER BY id";
        match query_text_rows(conn, sql) {
            Err(e) => Err(backend_err(e)),
            Ok(rows) => match decode_feed_rows(&rows) {
                Err(e) => Err(e),
                Ok(feeds) => Ok(sort_feeds(feeds)),
            },
        }
    }

    /// Fetch an entry by id; a missing row is `NotFound`, a malformed blob
    /// is `Ser` (see `decode_entry_text`).
    pub fn get_entry(&self, tx: Option<&SqliteTx<'_>>, id: &EntryId) -> (r: Result<
        Entry,
        RepoError,
    >)
        ensures
            !(r matches Err(RepoError::Conflict)),
    {
        let conn = self.ctx(tx);
        let sql = "SELECT json FROM entries WHERE id = ?";
        match query_text_row(conn, sql, id.as_str()) {
            Err(e) => Err(backend_err(e)),
            Ok(None) => Err(RepoError::NotFound),
            Ok(Some(json)) => decode_entry_text(json.as_str()),
        }
    }

    /// Insert or replace an entry. A minimal placeholder feed row is
    /// ensured first (`ON CONFLICT DO NOTHING`), so callers need not
    /// pre-create the owning feed to satisfy the foreign key.
    pub fn upsert(&self, tx: Option<&SqliteTx<'_>>, entry: &Entry) -> (r: Result<(), RepoError>)
        ensures
            r matches Err(e) ==> e is Backend,
    {
        let conn = self.ctx(tx);
        let minimal_feed = Feed {
            id: FeedId::new(entry.feed.as_str().to_owned()),
            url: String::new(),
            title: None,
            site_url: None,
            etag: None,
            last_modified: None,
            active: true,
        };
        let feed_json = encode_feed(&minimal_feed);
        let ensure_sql =
            "INSERT INTO feeds(id, json, active) VALUES(?, ?, 1)\nON CONFLICT(id) DO NOTHING";
        match exec_ss(conn, ensure_sql, entry.feed.as_str(), feed_json.as_str()) {
            Ok(_) => {},
            Err(e) => {
                return Err(backend_err(e));
            },
        }
        let json = encode_entry(entry);
        let sql =
            "INSERT INTO entries(id, feed_id, json) VALUES(?, ?, ?)\nON CONFLICT(id) DO UPDATE SET json = excluded.json, feed_id = excluded.feed_id";
        match exec_sss(conn, sql, entry.id.as_str(), entry.feed.as_str(), json.as_str()) {
            Ok(_) => Ok(()),
            Err(e) => Err(backend_err(e)),
        }
    }

    /// List a feed's entries in the canonical order
    /// `(published_ts, updated_ts, id)` ascending: the same listing order
    /// as the filesystem backend, enforced here rather than left to the
    /// engine. Every stored blob must parse (see `decode_entry_rows`).
    pub fn list_by_feed(&self, tx: Option<&SqliteTx<'_>>, feed: &FeedId) -> (r: Result<
        Vec<Entry>,
        RepoError,
    >)
        ensures
            r matches Ok(out) ==> sorted_entries(out@),
            !(r matches Err(RepoError::Conflict)),
            !(r matches Err(RepoError::NotFound)),
    {
        let conn = self.ctx(tx);
        let sql = "SELECT json FROM entries WHERE feed_id = ? ORDER BY id";
        match query_text_rows_s(conn, sql, feed.as_str()) {
            Err(e) => Err(backend_err(e)),
            Ok(rows) => match decode_entry_rows(&rows) {
                Err(e) => Err(e),
                Ok(entries) => Ok(sort_entries(entries)),
            },
        }
    }

    /// Last successful fetch time (unix seconds) for a feed, or `None`
    /// when nothing was recorded.
    pub fn last_ok_fetch_ts(&self, tx: Option<&SqliteTx<'_>>, feed: &FeedId) -> (r: Result<
        Option<i64>,
        RepoError,
    >)
        ensures
            r matches Err(e) ==> e is Backend,
    {
        let conn = self.ctx(tx);
        let sql = "SELECT last_ok_fetch_ts FROM schedule WHERE feed_id = ?";
        match query_opt_i64_row(conn, sql, feed.as_str()) {
            Err(e) => Err(backend_err(e)),
            Ok(None) => Ok(None),
            Ok(Some(v)) => Ok(v),
        }
    }

    /// Record a fetch timestamp: an idempotent overwrite of the single
    /// stored value for the feed.
    pub fn record_fetch_ts(&self, tx: Option<&SqliteTx<'_>>, feed: &FeedId, ts: i64) -> (r: Result<
        (),
        RepoError,
    >)
        ensures
            r matches Err(e) ==> e is Backend,
    {
        let conn = self.ctx(tx);
        let sql =
            "INSERT INTO schedule(feed_id, last_ok_fetch_ts) VALUES(?, ?)\nON CONFLICT(feed_id) DO UPDATE SET last_ok_fetch_ts = excluded.last_ok_fetch_ts";
        match exec_si(conn, sql, feed.as_str(), ts) {
            Ok(_) => Ok(()),
            Err(e) => Err(backend_err(e)),
        }
    }
}

} // verus!
