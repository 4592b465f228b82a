//! The trusted boundary to the embedded database engine. Each function here
//! wraps one engine operation; everything the rest of the library believes
//! about the engine is stated in these contracts and nowhere else.
use vstd::prelude::*;

use crate::cells::RawCell;
use crate::cells::RawColumn;
use crate::cells::RawTable;

verus! {

#[verifier::external_type_specification]
#[verifier::external_body]
pub struct ExConnection(rusqlite::Connection);

#[verifier::external_type_specification]
#[verifier::external_body]
pub struct ExRow<'a>(rusqlite::Row<'a>);

/// Relies on rusqlite's `Connection::open_with_flags`, without the
/// create-on-open flag: opening a path whose file is gone fails instead of
/// quietly creating a fresh empty database, so a descriptor whose file
/// vanished after enrichment fails at the open. Nothing is promised of the
/// outcome, which depends on the filesystem.
#[verifier::external_body]
pub(crate) fn open_connection(path: &str) -> (r: Result<rusqlite::Connection, String>) {
    let flags = rusqlite::OpenFlags::SQLITE_OPEN_READ_WRITE
        | rusqlite::OpenFlags::SQLITE_OPEN_URI
        | rusqlite::OpenFlags::SQLITE_OPEN_NO_MUTEX;
    rusqlite::Connection::open_with_flags(path, flags).map_err(|e| e.to_string())
}

/// Relies on rusqlite's `Connection::execute`, `Connection::prepare`,
/// `Statement::query` and `Rows::next`: runs one statement for effect; when
/// the engine answers the statement with a result set instead of a bare
/// acknowledgment, the rows are drained and discarded.
#[verifier::external_body]
pub(crate) fn exec_directive(conn: &rusqlite::Connection, sql: &str) -> (r: Result<(), String>) {
    match conn.execute(sql, []) {
        Ok(_) => Ok(()),
        Err(rusqlite::Error::ExecuteReturnedResults) => {
            let mut stmt = conn.prepare(sql).map_err(|e| e.to_string())?;
            let mut rows = stmt.query([]).map_err(|e| e.to_string())?;
            while let Some(_) = rows.next().map_err(|e| e.to_string())? {}
            Ok(())
        },
        Err(e) => Err(e.to_string()),
    }
}

/// Relies on rusqlite's `Connection::prepare`, `Statement::query`,
/// `Rows::next` and `Row::get` with `String`: runs a query whose rows each
/// carry one textual column and collects the values in row order.
#[verifier::external_body]
pub(crate) fn query_strings(conn: &rusqlite::Connection, sql: &str) -> (r: Result<
    Vec<String>,
    String,
>) {
    let mut stmt = conn.prepare(sql).map_err(|e| e.to_string())?;
    let mut rows = stmt.query([]).map_err(|e| e.to_string())?;
    let mut out = Vec::new();
    while let Some(row) = rows.next().map_err(|e| e.to_string())? {
        out.push(row.get::<usize, String>(0).map_err(|e| e.to_string())?);
    }
    Ok(out)
}

/// Relies on the same rusqlite calls as `query_strings`, with `Row::get`
/// reading a 64-bit integer: returns the single value of a one-row,
/// one-column query such as a count.
#[verifier::external_body]
pub(crate) fn query_count(conn: &rusqlite::Connection, sql: &str) -> (r: Result<i64, String>) {
    let mut stmt = conn.prepare(sql).map_err(|e| e.to_string())?;
    let mut rows = stmt.query([]).map_err(|e| e.to_string())?;
    match rows.next().map_err(|e| e.to_string())? {
        Some(row) => row.get::<usize, i64>(0).map_err(|e| e.to_string()),
        None => Err("query returned no rows".to_string()),
    }
}

/// Relies on the layout of the engine's table-introspection rows (fields 1,
/// 2, 3 and 5 of each row are the column name, declared type, not-null flag
/// and primary-key rank), read with rusqlite's `Row::get`.
#[verifier::external_body]
pub(crate) fn query_columns(conn: &rusqlite::Connection, sql: &str) -> (r: Result<
    Vec<RawColumn>,
    String,
>) {
    let mut stmt = conn.prepare(sql).map_err(|e| e.to_string())?;
    let mut rows = stmt.query([]).map_err(|e| e.to_string())?;
    let mut out = Vec::new();
    while let Some(row) = rows.next().map_err(|e| e.to_string())? {
        let name = row.get(1).map_err(|e| e.to_string())?;
        let data_type = row.get(2).map_err(|e| e.to_string())?;
        let notnull = row.get(3).map_err(|e| e.to_string())?;
        let pk = row.get(5).map_err(|e| e.to_string())?;
        out.push(RawColumn { name, data_type, notnull, pk });
    }
    Ok(out)
}

/// Relies on rusqlite's `Row::get` with `String` (accepted only for textual
/// values; an SQL NULL maps to an absent value) and with `i64` (accepted
/// only for integer values), and on `Row::get_ref` for the bit pattern of a
/// floating-point value: the reads behind one raw cell.
#[verifier::external_body]
fn read_cell(row: &rusqlite::Row<'_>, i: usize) -> (c: RawCell) {
    match row.get::<usize, Option<String>>(i) {
        Ok(t) => RawCell { text_ok: true, text: t, int: None, real_bits: None },
        Err(_) => {
            let int_read = row.get::<usize, i64>(i).ok();
            let real_bits = match row.get_ref(i) {
                Ok(rusqlite::types::ValueRef::Real(v)) => Some(v.to_bits()),
                _ => None,
            };
            RawCell { text_ok: false, text: None, int: int_read, real_bits }
        },
    }
}

/// Relies on rusqlite's `Connection::prepare`, `Statement::column_count`,
/// `Statement::column_names`, `Statement::query` and `Rows::next`: runs a
/// query and reads every cell of every row through `read_cell`. The engine
/// gives every row exactly one cell per statement column, and a row list
/// held in memory is far smaller than a signed 64-bit count.
#[verifier::external_body]
pub(crate) fn query_raw(conn: &rusqlite::Connection, sql: &str) -> (r: Result<RawTable, String>)
    ensures
        match r {
            Ok(t) => t.rows@.len() <= 0x7fff_ffff_ffff_ffff && forall|i: int|
                0 <= i < t.rows@.len() ==> (#[trigger] t.rows@[i])@.len() == t.columns@.len(),
            Err(_) => true,
        },
{
    let mut stmt = conn.prepare(sql).map_err(|e| e.to_string())?;
    let ncols = stmt.column_count();
    let columns: Vec<String> = stmt.column_names().iter().map(|s| s.to_string()).collect();
    let mut rows = stmt.query([]).map_err(|e| e.to_string())?;
    let mut out: Vec<Vec<RawCell>> = Vec::new();
    while let Some(row) = rows.next().map_err(|e| e.to_string())? {
        let mut cells = Vec::new();
        for i in 0..ncols {
            cells.push(read_cell(row, i));
        }
        out.push(cells);
    }
    Ok(RawTable { columns, rows: out })
}

} // verus!
