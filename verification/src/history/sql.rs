//! The SQLite calls of the history store (rusqlite). Each wrapper makes one
//! call and converts its arguments and results; what the database holds is
//! outside what the library can state, so the wrappers promise nothing about
//! the rows they return.

use vstd::prelude::*;

verus! {

#[verifier::external_type_specification]
#[verifier::external_body]
pub struct ExConnection(rusqlite::Connection);

#[verifier::external_type_specification]
#[verifier::external_body]
pub struct ExSqlError(rusqlite::Error);

#[verifier::external_type_specification]
#[verifier::external_body]
pub struct ExTransaction<'a>(rusqlite::Transaction<'a>);

#[verifier::external_type_specification]
#[verifier::external_body]
pub struct ExSqlValue(rusqlite::types::Value);

/// A statement parameter.
pub enum SqlParam {
    Null,
    Integer(i64),
    Text(String),
}

/// A row of a pivot query: a bucket label and four counters.
pub struct PivotRow {
    pub label: String,
    pub c1: i64,
    pub c2: i64,
    pub c3: i64,
    pub c4: i64,
}

/// A row of the per-app daily query; a counter that could not be read as an
/// integer is `None`.
pub struct AppDayRaw {
    pub day: String,
    pub app: String,
    pub rx_v4: Option<i64>,
    pub tx_v4: Option<i64>,
    pub rx_v6: Option<i64>,
    pub tx_v6: Option<i64>,
}

/// A row of the per-app range query; a counter that could not be read as an
/// integer is `None`.
pub struct AppUsageRaw {
    pub app: String,
    pub rx_v4: Option<i64>,
    pub tx_v4: Option<i64>,
    pub rx_v6: Option<i64>,
    pub tx_v6: Option<i64>,
}

/// `rusqlite::Connection::open_in_memory`.
#[verifier::external_body]
pub(crate) fn open_in_memory() -> Result<rusqlite::Connection, rusqlite::Error> {
    rusqlite::Connection::open_in_memory()
}

/// `rusqlite::Connection::open_with_flags` with read-write and create flags.
#[verifier::external_body]
pub(crate) fn open_file(path: &str) -> Result<rusqlite::Connection, rusqlite::Error> {
    rusqlite::Connection::open_with_flags(
        path,
        rusqlite::OpenFlags::SQLITE_OPEN_READ_WRITE | rusqlite::OpenFlags::SQLITE_OPEN_CREATE,
    )
}

/// `rusqlite::Connection::busy_timeout` with `secs` seconds.
#[verifier::external_body]
pub(crate) fn busy_timeout(conn: &rusqlite::Connection, secs: u64) -> Result<(), rusqlite::Error> {
    conn.busy_timeout(std::time::Duration::from_secs(secs))
}

/// `rusqlite::Connection::pragma_update` on the main schema.
#[verifier::external_body]
pub(crate) fn pragma_update(conn: &rusqlite::Connection, name: &str, value: &str) -> Result<(), rusqlite::Error> {
    conn.pragma_update(None, name, value)
}

/// `rusqlite::Connection::execute_batch`.
#[verifier::external_body]
pub(crate) fn execute_batch(conn: &rusqlite::Connection, sql: &str) -> Result<(), rusqlite::Error> {
    conn.execute_batch(sql)
}

/// `rusqlite::Connection::transaction`: begins a transaction that rolls back
/// when dropped without a commit.
#[verifier::external_body]
pub(crate) fn begin(conn: &mut rusqlite::Connection) -> Result<rusqlite::Transaction<'_>, rusqlite::Error> {
    conn.transaction()
}

/// `rusqlite::Transaction::commit`.
#[verifier::external_body]
pub(crate) fn commit(tx: rusqlite::Transaction<'_>) -> Result<(), rusqlite::Error> {
    tx.commit()
}

/// `rusqlite::types::Value` of a parameter, variant for variant.
#[verifier::external_body]
fn sql_value(p: &SqlParam) -> rusqlite::types::Value {
    match p {
        SqlParam::Null => rusqlite::types::Value::Null,
        SqlParam::Integer(i) => rusqlite::types::Value::Integer(*i),
        SqlParam::Text(s) => rusqlite::types::Value::Text(s.clone()),
    }
}

fn sql_values(params: &Vec<SqlParam>) -> (r: Vec<rusqlite::types::Value>)
    ensures
        r@.len() == params@.len(),
{
    let mut out: Vec<rusqlite::types::Value> = Vec::new();
    let mut i: usize = 0;
    while i < params.len()
        invariant
            i <= params@.len(),
            out@.len() == i,
        decreases params@.len() - i,
    {
        out.push(sql_value(&params[i]));
        i = i + 1;
    }
    out
}

/// `rusqlite::Connection::execute` (through the transaction) with positional parameters.
#[verifier::external_body]
fn execute_values(
    tx: &rusqlite::Transaction<'_>,
    sql: &str,
    values: Vec<rusqlite::types::Value>,
) -> Result<usize, rusqlite::Error> {
    tx.execute(sql, rusqlite::params_from_iter(values))
}

/// Executes `sql` with `params` inside the transaction.
pub fn execute(tx: &rusqlite::Transaction<'_>, sql: &str, params: &Vec<SqlParam>) -> Result<
    usize,
    rusqlite::Error,
> {
    let values = sql_values(params);
    execute_values(tx, sql, values)
}

/// `rusqlite::Statement::query_map` of a prepared `sql`, reading a label and
/// four integer columns per row; a column that cannot be read fails the query.
#[verifier::external_body]
fn query_pivot_values(
    conn: &rusqlite::Connection,
    sql: &str,
    values: Vec<rusqlite::types::Value>,
) -> Result<Vec<PivotRow>, rusqlite::Error> {
    let mut stmt = conn.prepare(sql)?;
    let rows = stmt.query_map(rusqlite::params_from_iter(values), |row| {
        Ok(PivotRow { label: row.get(0)?, c1: row.get(1)?, c2: row.get(2)?, c3: row.get(3)?, c4: row.get(4)? })
    })?;
    rows.collect()
}

/// Runs a pivot query with `params`.
pub fn query_pivot(conn: &rusqlite::Connection, sql: &str, params: &Vec<SqlParam>) -> Result<
    Vec<PivotRow>,
    rusqlite::Error,
> {
    let values = sql_values(params);
    query_pivot_values(conn, sql, values)
}

/// `rusqlite::Statement::query_map` of a prepared `sql` reading day, app and
/// four counters; a counter that cannot be read becomes `None`.
#[verifier::external_body]
pub(crate) fn query_app_days_raw(conn: &rusqlite::Connection, sql: &str) -> Result<Vec<AppDayRaw>, rusqlite::Error> {
    let mut stmt = conn.prepare(sql)?;
    let rows = stmt.query_map([], |row| {
        Ok(AppDayRaw { day: row.get(0)?, app: row.get(1)?, rx_v4: row.get(2).ok(),
            tx_v4: row.get(3).ok(), rx_v6: row.get(4).ok(), tx_v6: row.get(5).ok() })
    })?;
    rows.collect()
}

/// `rusqlite::Statement::query_map` of a prepared `sql` with two text
/// parameters, reading app and four counters; a counter that cannot be read
/// becomes `None`.
#[verifier::external_body]
pub(crate) fn query_app_usage_raw(
    conn: &rusqlite::Connection,
    sql: &str,
    since: &str,
    until: &str,
) -> Result<Vec<AppUsageRaw>, rusqlite::Error> {
    let mut stmt = conn.prepare(sql)?;
    let rows = stmt.query_map((since, until), |row| {
        Ok(AppUsageRaw { app: row.get(0)?, rx_v4: row.get(1).ok(), tx_v4: row.get(2).ok(),
            rx_v6: row.get(3).ok(), tx_v6: row.get(4).ok() })
    })?;
    rows.collect()
}

/// `rusqlite::Statement::query_map` of a prepared `sql` reading a name and an
/// optional description per row.
#[verifier::external_body]
pub(crate) fn query_name_desc(conn: &rusqlite::Connection, sql: &str) -> Result<Vec<(String, Option<String>)>, rusqlite::Error> {
    let mut stmt = conn.prepare(sql)?;
    let rows = stmt.query_map([], |row| Ok((row.get(0)?, row.get(1)?)))?;
    rows.collect()
}

} // verus!
