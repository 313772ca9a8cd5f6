//! The metadata store: a single relational table
//! `indexed_files(path PRIMARY KEY, hash, size, indexed_at)` held behind
//! an embedded database connection. The table's contents are modeled as a
//! map from path to row; the model presumes this library's schema, so a
//! pre-existing database file carrying a foreign table of the same name
//! without the path primary key lies outside it.

use vstd::prelude::*;

use crate::errors::StoreError;
use crate::model::RowModel;

verus! {

#[verifier::external_type_specification]
#[verifier::external_body]
pub struct ExConnection(rusqlite::Connection);

/// What the `indexed_files` table of the database behind `c` holds: one
/// row per stored path.
pub uninterp spec fn store_rows(c: rusqlite::Connection) -> Map<Seq<char>, RowModel>;

/// One fetched row of the metadata table.
pub struct MetaRow {
    pub path: String,
    pub hash: String,
    pub size: u64,
}

/// A snapshot of a metadata table as fetched rows: one entry per stored
/// path, each matching the table, in an unspecified order.
pub open spec fn rows_match(rows: Map<Seq<char>, RowModel>, v: Seq<MetaRow>) -> bool {
    &&& forall|i: int|
        0 <= i < v.len() ==> rows.dom().contains((#[trigger] v[i]).path@) && rows[v[i].path@]
            == (RowModel { hash: v[i].hash@, size: v[i].size })
    &&& forall|p: Seq<char>| #[trigger] rows.dom().contains(p) ==> exists|i: int|
        0 <= i < v.len() && (#[trigger] v[i]).path@ == p
    &&& forall|i: int, j: int| 0 <= i < j < v.len() ==> (#[trigger] v[i]).path@ != (
    #[trigger] v[j]).path@
}

/// Relies on `rusqlite::Connection::open`. The file may already hold
/// rows, so nothing is promised about the table's contents.
#[verifier::external_body]
pub(crate) fn connection_open(path: &String) -> (r: Result<rusqlite::Connection, StoreError>)
    ensures
        r is Err ==> r->Err_0 == StoreError::Open,
{
    rusqlite::Connection::open(path.as_str()).map_err(|_| StoreError::Open)
}

/// Relies on `rusqlite::Connection::open_in_memory`: a freshly created
/// empty database.
#[verifier::external_body]
pub(crate) fn connection_open_in_memory() -> (r: Result<rusqlite::Connection, StoreError>)
    ensures
        r is Ok ==> store_rows(r->Ok_0) == (Map::<Seq<char>, RowModel>::empty()),
{
    rusqlite::Connection::open_in_memory().map_err(|_| StoreError::Open)
}

/// Relies on `rusqlite::Connection::execute` running
/// `CREATE TABLE IF NOT EXISTS`: it creates the schema when missing and
/// alters no rows.
#[verifier::external_body]
pub(crate) fn store_create_schema(conn: &mut rusqlite::Connection) -> (r: Result<(), StoreError>)
    ensures
        store_rows(*final(conn)) == store_rows(*old(conn)),
{
    conn.execute(
        "CREATE TABLE IF NOT EXISTS indexed_files (path VARCHAR(256) PRIMARY KEY, hash VARCHAR(64) NOT NULL, size INT(64) NOT NULL, indexed_at DATETIME NOT NULL)",
        (),
    ).map(|_| ()).map_err(|_| StoreError::Schema)
}

/// Relies on `rusqlite::Connection::execute` running `INSERT OR REPLACE`:
/// on success the row for `path` is inserted or overwritten; on error the
/// statement left the table unchanged.
#[verifier::external_body]
pub(crate) fn store_upsert(
    conn: &mut rusqlite::Connection,
    path: &String,
    hash: &String,
    size: u64,
    indexed_at: &String,
) -> (r: Result<(), StoreError>)
    ensures
        r is Ok ==> store_rows(*final(conn)) == store_rows(*old(conn)).insert(
            path@,
            RowModel { hash: hash@, size },
        ),
        r is Err ==> store_rows(*final(conn)) == store_rows(*old(conn)),
{
    let stored_size = match i64::try_from(size) {
        Ok(v) => v,
        Err(_) => return Err(StoreError::Write),
    };
    conn.execute(
        "INSERT OR REPLACE INTO indexed_files (path, hash, size, indexed_at) VALUES (?1, ?2, ?3, ?4)",
        (path.as_str(), hash.as_str(), stored_size, indexed_at.as_str()),
    ).map(|_| ()).map_err(|_| StoreError::Write)
}

/// Relies on `rusqlite::Connection::prepare`, `Statement::query_map` and
/// `Row::get` running `SELECT path, hash, size`: on success it yields the
/// table's rows exactly, one per stored path, in an unspecified order.
#[verifier::external_body]
pub(crate) fn store_fetch_rows(conn: &rusqlite::Connection) -> (r: Result<Vec<MetaRow>, StoreError>)
    ensures
        r is Ok ==> rows_match(store_rows(*conn), r->Ok_0@),
{
    let mut stmt = conn.prepare("SELECT path, hash, size FROM indexed_files").map_err(|_| StoreError::Read)?;
    let mapped = stmt.query_map((), |row| {
        let size: i64 = row.get(2)?;
        let size = u64::try_from(size).map_err(|_| rusqlite::Error::IntegralValueOutOfRange(2, size))?;
        Ok(MetaRow { path: row.get(0)?, hash: row.get(1)?, size })
    }).map_err(|_| StoreError::Read)?;
    let mut out = Vec::new();
    for row in mapped {
        out.push(row.map_err(|_| StoreError::Read)?);
    }
    Ok(out)
}

} // verus!
