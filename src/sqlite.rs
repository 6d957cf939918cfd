//! The few calls made into the SQLite engine. Each returns plain values; none of them
//! promises anything of what is stored, which the caller reads and checks itself.

use rusqlite::types::{Value, ValueRef};
use rusqlite::Connection;
use rusqlite::Error as SqliteError;
use vstd::prelude::*;

verus! {

#[verifier::external_type_specification]
#[verifier::external_body]
pub struct ExConnection(rusqlite::Connection);

#[verifier::external_type_specification]
#[verifier::external_body]
pub struct ExSqliteError(SqliteError);

/// A value bound to a parameter of a statement.
#[derive(Clone, Debug)]
pub enum Param {
    Null,
    Integer(i64),
    Text(String),
    Blob(Vec<u8>),
}

/// A value read from one column of one row.
#[derive(Clone, Debug)]
pub enum Cell {
    Null,
    Integer(i64),
    /// A floating-point value, which no column of the queue holds.
    Real,
    Text(String),
    Blob(Vec<u8>),
}

/// Relies on `rusqlite::Connection::open`: opens (or creates) the database file at `path`.
#[verifier::external_body]
pub(crate) fn open_connection(path: &str) -> (r: Result<Connection, SqliteError>) {
    Connection::open(path)
}

/// Relies on `rusqlite::Connection::execute`: runs one statement with its parameters bound
/// in order, returning the number of rows changed.
#[verifier::external_body]
pub(crate) fn execute(conn: &Connection, sql: &str, params: &Vec<Param>) -> (r: Result<
    usize,
    SqliteError,
>) {
    let values = params.iter().map(|p| match p {
        Param::Null => Value::Null,
        Param::Integer(i) => Value::Integer(*i),
        Param::Text(s) => Value::Text(s.clone()),
        Param::Blob(b) => Value::Blob(b.clone()),
    });
    conn.execute(sql, rusqlite::params_from_iter(values))
}

/// Relies on `rusqlite::Connection::prepare`, `Statement::query` and `Row::get_ref`: runs a
/// query without parameters and returns each row's columns in order.
#[verifier::external_body]
pub(crate) fn query(conn: &Connection, sql: &str) -> (r: Result<Vec<Vec<Cell>>, SqliteError>) {
    let mut stmt = conn.prepare(sql)?;
    let n = stmt.column_count();
    let mut rows = stmt.query([])?;
    let mut out = Vec::new();
    while let Some(row) = rows.next()? {
        let cells = (0..n).map(|i| Ok(match row.get_ref(i)? {
            ValueRef::Null => Cell::Null,
            ValueRef::Integer(v) => Cell::Integer(v),
            ValueRef::Real(_) => Cell::Real,
            ValueRef::Text(_) => Cell::Text(row.get(i)?),
            ValueRef::Blob(b) => Cell::Blob(b.to_vec()),
        }));
        out.push(cells.collect::<rusqlite::Result<Vec<Cell>>>()?);
    }
    Ok(out)
}

} // verus!
