//! Trusted boundary to the relational store.
//!
//! Everything the library knows about the backing database goes through the
//! wrappers in this module.  Each wrapper holds one call into `rusqlite`
//! (preparing a statement and running it counts as one call here); the SQL
//! text itself is always built by verified code and handed in as an
//! argument.  Nothing is promised about what a statement returns — the
//! store's contents are outside the program — so the callers state what
//! holds of every outcome.

use vstd::prelude::*;

use super::{StoredQuery, TagInfo, TagMapping};

verus! {

#[verifier::external_type_specification]
#[verifier::external_body]
pub struct ExConnection(rusqlite::Connection);

#[verifier::external_type_specification]
#[verifier::external_body]
pub struct ExSqlError(rusqlite::Error);

#[verifier::external_type_specification]
#[verifier::external_body]
pub struct ExSqlValue(rusqlite::types::Value);

/// A parameter to be bound in a statement.
pub enum SqlParam {
    Int(i64),
    Text(String),
    MaybeText(Option<String>),
    Flag(bool),
}

/// Relies on `rusqlite::types::Value`: builds the store's dynamic value
/// type out of one parameter (an absent text becomes the store's null, a
/// flag its 0/1 integer form).
#[verifier::external_body]
fn param_to_value(p: SqlParam) -> rusqlite::types::Value {
    match p {
        SqlParam::Int(i) => rusqlite::types::Value::Integer(i),
        SqlParam::Text(s) => rusqlite::types::Value::Text(s),
        SqlParam::MaybeText(Some(s)) => rusqlite::types::Value::Text(s),
        SqlParam::MaybeText(None) => rusqlite::types::Value::Null,
        SqlParam::Flag(b) => rusqlite::types::Value::Integer(
            if b {
                1
            } else {
                0
            },
        ),
    }
}

pub(super) fn params_to_values(ps: Vec<SqlParam>) -> Vec<rusqlite::types::Value> {
    let mut values: Vec<rusqlite::types::Value> = Vec::new();
    let mut it = ps;
    while it.len() > 0
        decreases it@.len(),
    {
        let p = it.remove(0);
        values.push(param_to_value(p));
    }
    values
}

/// Relies on `rusqlite::Connection::open`: opens (or creates) the database
/// file at the given path.
#[verifier::external_body]
pub(super) fn open_connection(path: &str) -> Result<rusqlite::Connection, rusqlite::Error> {
    rusqlite::Connection::open(path)
}

/// Relies on `rusqlite::Connection::open_in_memory`: opens a fresh
/// in-memory database.
#[verifier::external_body]
pub(super) fn open_in_memory_connection() -> Result<rusqlite::Connection, rusqlite::Error> {
    rusqlite::Connection::open_in_memory()
}

/// Relies on `rusqlite::Statement::execute` (via a cached prepared
/// statement): runs one statement and returns how many rows it changed.
#[verifier::external_body]
pub(super) fn exec_sql(conn: &rusqlite::Connection, sql: &str, params: Vec<rusqlite::types::Value>) -> Result<
    usize,
    rusqlite::Error,
> {
    let mut stmt = conn.prepare_cached(sql)?;
    stmt.execute(rusqlite::params_from_iter(params))
}

/// Relies on `rusqlite::Connection::execute_batch`: runs several
/// semicolon-separated statements.
#[verifier::external_body]
pub(super) fn exec_batch(conn: &rusqlite::Connection, sql: &str) -> Result<(), rusqlite::Error> {
    conn.execute_batch(sql)
}

/// Relies on `rusqlite::Connection::last_insert_rowid`: the row id of the
/// most recent successful insert on this connection.
#[verifier::external_body]
pub(super) fn last_insert_rowid(conn: &rusqlite::Connection) -> i64 {
    conn.last_insert_rowid()
}

/// Relies on `rusqlite::Statement::query_map`: runs a selection whose rows
/// are single strings.
#[verifier::external_body]
pub(super) fn query_strings(conn: &rusqlite::Connection, sql: &str, params: Vec<rusqlite::types::Value>)
    -> Result<Vec<String>, rusqlite::Error> {
    let mut stmt = conn.prepare_cached(sql)?;
    let rows = stmt.query_map(
        rusqlite::params_from_iter(params),
        |row| row.get::<_, String>(0),
    )?;
    rows.collect()
}

/// Relies on `rusqlite::Statement::query_map`: runs a selection whose rows
/// are `(path, mapping id)` pairs.
#[verifier::external_body]
pub(super) fn query_path_ids(conn: &rusqlite::Connection, sql: &str, params: Vec<rusqlite::types::Value>)
    -> Result<Vec<(String, u64)>, rusqlite::Error> {
    let mut stmt = conn.prepare_cached(sql)?;
    let rows = stmt.query_map(
        rusqlite::params_from_iter(params),
        |row| Ok((row.get::<_, String>(0)?, row.get::<_, i64>(1)? as u64)),
    )?;
    rows.collect()
}

/// Relies on `rusqlite::Statement::query_map`: runs a selection whose rows
/// are tag rows (`id, name, takes_value`).
#[verifier::external_body]
pub(super) fn query_tag_infos(conn: &rusqlite::Connection, sql: &str, params: Vec<rusqlite::types::Value>)
    -> Result<Vec<TagInfo>, rusqlite::Error> {
    let mut stmt = conn.prepare_cached(sql)?;
    let rows = stmt.query_map(
        rusqlite::params_from_iter(params),
        |row| Ok(TagInfo::new(row.get(0)?, row.get(1)?, row.get(2)?)),
    )?;
    rows.collect()
}

/// Relies on `rusqlite::Statement::query_map`: runs a selection whose rows
/// are full mapping rows joined with their tag row.
#[verifier::external_body]
pub(super) fn query_mappings(conn: &rusqlite::Connection, sql: &str, params: Vec<rusqlite::types::Value>)
    -> Result<Vec<TagMapping>, rusqlite::Error> {
    let mut stmt = conn.prepare_cached(sql)?;
    let rows = stmt.query_map(
        rusqlite::params_from_iter(params),
        |row| Ok(TagMapping::new(
            TagInfo::new(row.get(0)?, row.get(1)?, row.get(2)?),
            row.get(3)?,
            row.get(4)?,
            row.get(5)?,
            row.get(6)?,
        )),
    )?;
    rows.collect()
}

/// Relies on `rusqlite::Statement::query_map`: runs a selection whose rows
/// are stored queries (`name, query`).
#[verifier::external_body]
pub(super) fn query_stored(conn: &rusqlite::Connection, sql: &str) -> Result<
    Vec<StoredQuery>,
    rusqlite::Error,
> {
    let mut stmt = conn.prepare_cached(sql)?;
    let rows = stmt.query_map([], |row| Ok(StoredQuery::new(row.get(0)?, row.get(1)?)))?;
    rows.collect()
}

/// Relies on `rusqlite::Error::SqliteFailure` carrying the store's extended
/// result code: code 2067 is the failure of a `UNIQUE` constraint.
#[verifier::external_body]
pub(super) fn is_unique_violation(e: &rusqlite::Error) -> bool {
    match e {
        rusqlite::Error::SqliteFailure(sql_error, _) => sql_error.extended_code == 2067,
        _ => false,
    }
}

/// Relies on `rusqlite::Error`'s `Display` implementation: a readable
/// description of a store error.
#[verifier::external_body]
pub(super) fn error_text(e: &rusqlite::Error) -> String {
    format!("{e}")
}

} // verus!
