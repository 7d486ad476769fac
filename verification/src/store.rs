//! The boundary to the relational store. The store is rusqlite; the two
//! functions here hold the only calls into it, and everything above them is
//! verified against their contracts.

use vstd::prelude::*;

verus! {

#[verifier::external_type_specification]
#[verifier::external_body]
pub struct ExConnection(rusqlite::Connection);

#[verifier::external_type_specification]
#[verifier::external_body]
pub struct ExStoreError(rusqlite::Error);

/// One stored value, in one of the two storage classes a schema admits.
#[derive(Clone, Debug, PartialEq)]
pub enum SqlValue {
    Text(String),
    Integer(i64),
}

/// Relies on rusqlite's `Connection::execute`: prepares and runs the one
/// statement `sql` against the store, binding `params` positionally, and
/// returns the store's outcome unchanged — the changed-row count on
/// success, the store's error otherwise. The outcome depends on the state
/// of the store, so nothing is promised of it.
#[verifier::external_body]
pub(crate) fn exec_sql(conn: &rusqlite::Connection, sql: &str, params: &Vec<SqlValue>) -> Result<
    usize,
    rusqlite::Error,
> {
    let vals = params.iter().map(|p| match p {
        SqlValue::Text(s) => rusqlite::types::Value::Text(s.clone()),
        SqlValue::Integer(n) => rusqlite::types::Value::Integer(*n),
    });
    conn.execute(sql, rusqlite::params_from_iter(vals))
}

/// Relies on rusqlite's `Connection::prepare` and `Statement::query_map`:
/// runs the query `sql` with `params` bound positionally and returns the
/// matched rows eagerly, each row as its first `width` column values in
/// column order — an integer-stored value as an integer, a text-stored
/// value as text, and any other stored value, like any failing row read,
/// aborting the whole query with the store's error. Which rows match
/// depends on the state of the store, so only each returned row's width is
/// promised.
#[verifier::external_body]
pub(crate) fn query_rows(
    conn: &rusqlite::Connection,
    sql: &str,
    params: &Vec<SqlValue>,
    width: usize,
) -> (r: Result<Vec<Vec<SqlValue>>, rusqlite::Error>)
    ensures
        r matches Ok(rows) ==> forall|j: int|
            0 <= j < rows@.len() ==> (#[trigger] rows@[j])@.len() == width as nat,
{
    let mut stmt = conn.prepare(sql)?;
    let vals = params.iter().map(|p| match p {
        SqlValue::Text(s) => rusqlite::types::Value::Text(s.clone()),
        SqlValue::Integer(n) => rusqlite::types::Value::Integer(*n),
    });
    let rows = stmt.query_map(rusqlite::params_from_iter(vals), |row| {
        (0..width).map(|i| match row.get_ref(i)? {
            rusqlite::types::ValueRef::Integer(n) => Ok(SqlValue::Integer(n)),
            v => Ok(SqlValue::Text(v.as_str()?.to_owned())),
        }).collect()
    })?;
    rows.collect()
}

} // verus!
