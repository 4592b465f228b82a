//! The manager: an in-memory catalog of database descriptors keyed by
//! identity, and a pool of live, decrypted connections. A catalog load
//! replaces all descriptors; connections are created by `connect_database`
//! and removed by the disconnect operations.
use vstd::prelude::*;

use crate::cells::CellValue;
use crate::cells::RawColumn;
use crate::cells::cell_json_safe;
use crate::cells::lemma_coerced_rows_json_safe;
use crate::cells::row_coerced;
use crate::cells::rows_from_raw;
use crate::descriptor::DatabaseInfo;
use crate::sqlite::exec_directive;
use crate::sqlite::open_connection;
use crate::sqlite::query_columns;
use crate::sqlite::query_count;
use crate::sqlite::query_raw;
use crate::sqlite::query_strings;
use crate::text::i64_dec_spec;
use crate::text::i64_to_dec;
use crate::text::str_eq;
use crate::DatabaseError;

verus! {

/// One table inside a connected database: name, columns in declaration
/// order, and its row count when counting succeeded.
#[derive(Debug, Clone, PartialEq)]
pub struct TableInfo {
    pub name: String,
    pub columns: Vec<ColumnInfo>,
    pub row_count: Option<i64>,
}

/// One column of a table: name, declared type as reported by the engine,
/// nullability, and primary-key membership.
#[derive(Debug, Clone, PartialEq)]
pub struct ColumnInfo {
    pub name: String,
    pub data_type: String,
    pub nullable: bool,
    pub primary_key: bool,
}

/// The generic tabular output of any query: ordered column names, rows of
/// scalar cells, and a total-row count. For a table fetch the count is the
/// table's full cardinality; for an arbitrary query it is the number of
/// returned rows.
#[derive(Debug, Clone, PartialEq)]
pub struct QueryResult {
    pub columns: Vec<String>,
    pub rows: Vec<Vec<CellValue>>,
    pub total_rows: i64,
}

/// Every row of a result carries exactly one cell per column.
pub open spec fn result_well_formed(q: QueryResult) -> bool {
    forall|i: int| 0 <= i < q.rows@.len() ==> (#[trigger] q.rows@[i])@.len() == q.columns@.len()
}

/// Every cell of a result is a JSON-safe scalar: in particular no
/// floating-point cell carries non-finite bits.
pub open spec fn result_json_safe(q: QueryResult) -> bool {
    forall|i: int, j: int|
        0 <= i < q.rows@.len() && 0 <= j < q.rows@[i]@.len() ==> cell_json_safe(
            #[trigger] q.rows@[i]@[j],
        )
}

/// How one produced column description relates to the engine's raw one:
/// names carry over, a zero not-null marker means nullable, and a nonzero
/// primary-key rank means primary-key membership (members of a composite
/// primary key carry the ranks 1, 2, ...).
pub open spec fn column_from_raw(c: RawColumn, o: ColumnInfo) -> bool {
    o.name == c.name && o.data_type == c.data_type && o.nullable == (c.notnull == 0)
        && o.primary_key == (c.pk != 0)
}

/// Pointwise correspondence of a produced column list to the engine's raw
/// rows, in declaration order.
pub open spec fn columns_match(raw: Seq<RawColumn>, out: Seq<ColumnInfo>) -> bool {
    out.len() == raw.len() && forall|j: int|
        0 <= j < raw.len() ==> column_from_raw(raw[j], #[trigger] out[j])
}

struct PoolEntry {
    id: String,
    conn: rusqlite::Connection,
}

/// The catalog and the connection pool, owned together and always accessed
/// as one unit.
pub struct DatabaseManager {
    databases: Vec<DatabaseInfo>,
    connections: Vec<PoolEntry>,
}

pub open spec fn unique_ids(s: Seq<DatabaseInfo>) -> bool {
    forall|i: int, j: int| 0 <= i < j < s.len() ==> (#[trigger] s[i].id@) != (#[trigger] s[j].id@)
}

pub open spec fn seq_has_id(s: Seq<DatabaseInfo>, id: Seq<char>) -> bool {
    exists|i: int| 0 <= i < s.len() && (#[trigger] s[i].id@) == id
}

pub open spec fn seq_at_id(s: Seq<DatabaseInfo>, id: Seq<char>) -> DatabaseInfo {
    s[choose|i: int| 0 <= i < s.len() && (#[trigger] s[i].id@) == id]
}

proof fn lemma_seq_at(s: Seq<DatabaseInfo>, id: Seq<char>, i: int)
    requires
        unique_ids(s),
        0 <= i < s.len(),
        s[i].id@ == id,
    ensures
        seq_at_id(s, id) == s[i],
        seq_has_id(s, id),
{
    let k = choose|k: int| 0 <= k < s.len() && (#[trigger] s[k].id@) == id;
    if k != i {
        if k < i {
            assert(s[k].id@ != s[i].id@);
        } else {
            assert(s[i].id@ != s[k].id@);
        }
    }
}

impl DatabaseManager {
    /// The catalog's descriptors, in storage order.
    pub closed spec fn dbs(&self) -> Seq<DatabaseInfo> {
        self.databases@
    }

    /// The identities holding a live connection, in storage order.
    pub closed spec fn conn_ids(&self) -> Seq<Seq<char>> {
        self.connections@.map_values(|e: PoolEntry| e.id@)
    }

    /// Identities are unique within the catalog and within the pool.
    pub open spec fn wf(&self) -> bool {
        unique_ids(self.dbs()) && (forall|i: int, j: int|
            0 <= i < j < self.conn_ids().len() ==> self.conn_ids()[i] != self.conn_ids()[j])
    }

    pub open spec fn has_db(&self, id: Seq<char>) -> bool {
        seq_has_id(self.dbs(), id)
    }

    pub open spec fn db_at(&self, id: Seq<char>) -> DatabaseInfo {
        seq_at_id(self.dbs(), id)
    }

    pub open spec fn connected(&self, id: Seq<char>) -> bool {
        self.conn_ids().contains(id)
    }

    pub fn new() -> (m: DatabaseManager)
        ensures
            m.wf(),
            m.dbs().len() == 0,
            m.conn_ids().len() == 0,
    {
        let m = DatabaseManager { databases: Vec::new(), connections: Vec::new() };
        proof {
            assert(m.conn_ids() =~= Seq::<Seq<char>>::empty());
        }
        m
    }

    fn find_db_index(&self, id: &str) -> (r: Option<usize>)
        ensures
            match r {
                Some(i) => i < self.dbs().len() && self.dbs()[i as int].id@ == id@,
                None => !self.has_db(id@),
            },
    {
        let n = self.databases.len();
        let mut i: usize = 0;
        while i < n
            invariant
                i <= n,
                n == self.dbs().len(),
                forall|j: int| 0 <= j < i ==> (#[trigger] self.dbs()[j].id@) != id@,
            decreases n - i,
        {
            if str_eq(self.databases[i].id.as_str(), id) {
                return Some(i);
            }
            i += 1;
        }
        None
    }

    fn find_conn_index(&self, id: &str) -> (r: Option<usize>)
        ensures
            match r {
                Some(i) => i < self.conn_ids().len() && self.conn_ids()[i as int] == id@,
                None => !self.connected(id@),
            },
    {
        let n = self.connections.len();
        let mut i: usize = 0;
        while i < n
            invariant
                i <= n,
                n == self.conn_ids().len(),
                n == self.connections@.len(),
                forall|j: int| 0 <= j < i ==> self.conn_ids()[j] != id@,
            decreases n - i,
        {
            proof {
                assert(self.conn_ids()[i as int] == self.connections@[i as int].id@);
            }
            if str_eq(self.connections[i].id.as_str(), id) {
                return Some(i);
            }
            i += 1;
        }
        proof {
            if self.connected(id@) {
                let k = choose|k: int|
                    0 <= k < self.conn_ids().len() && self.conn_ids()[k] == id@;
                assert(self.conn_ids()[k] != id@);
            }
        }
        None
    }

    /// Replaces the whole catalog with the given batch; within the batch a
    /// colliding identity keeps the last descriptor. Every prior connection
    /// is dropped: identities may be reassigned by the new batch, so no
    /// connection made before a reload may survive it.
    pub fn load_databases(&mut self, databases: Vec<DatabaseInfo>)
        requires
            old(self).wf(),
        ensures
            final(self).wf(),
            final(self).conn_ids().len() == 0,
            forall|id: Seq<char>|
                final(self).has_db(id) <==> seq_has_id(databases@, id),
            forall|j: int|
                0 <= j < databases@.len() && no_later_id(databases@, j, databases@.len() as int)
                    ==> final(self).has_db((#[trigger] databases@[j]).id@) && final(self).db_at(
                    databases@[j].id@,
                ) == databases@[j],
    {
        let ghost batch = databases@;
        self.databases.clear();
        self.connections.clear();
        let mut rest = databases;
        let ghost mut i: int = 0;
        let ghost n = batch.len() as int;
        proof {
            assert(batch.skip(0) =~= batch);
            assert(batch.take(0) =~= Seq::<DatabaseInfo>::empty());
        }
        while rest.len() > 0
            invariant
                0 <= i,
                i + rest@.len() == n,
                n == batch.len(),
                rest@ == batch.skip(i),
                unique_ids(self.databases@),
                self.connections@.len() == 0,
                forall|id: Seq<char>|
                    seq_has_id(self.databases@, id) <==> seq_has_id(batch.take(i), id),
                forall|j: int|
                    0 <= j < i && no_later_id(batch, j, i) ==> seq_has_id(
                        self.databases@,
                        (#[trigger] batch[j]).id@,
                    ) && seq_at_id(self.databases@, batch[j].id@) == batch[j],
            decreases rest@.len(),
        {
            let ghost prev_dbs = self.databases@;
            let ghost gi = i;
            let db = rest.remove(0);
            proof {
                assert(batch.skip(gi)[0] == batch[gi]);
                assert(batch.skip(gi).remove(0) =~= batch.skip(gi + 1));
                assert(db == batch[gi]);
            }
            let ghost mut newpos: int = 0;
            match self.find_db_index(db.id.as_str()) {
                Some(p) => {
                    proof {
                        newpos = p as int;
                    }
                    self.databases.remove(p);
                    self.databases.insert(p, db);
                    proof {
                        assert(self.databases@ =~= prev_dbs.update(p as int, batch[gi]));
                        // ids are pointwise unchanged at every index
                        assert forall|x: int| 0 <= x < self.databases@.len() implies (
                        #[trigger] self.databases@[x].id@) == prev_dbs[x].id@ by {
                            if x != p as int {
                                assert(self.databases@[x] == prev_dbs[x]);
                            }
                        }
                        assert(unique_ids(self.databases@));
                    }
                },
                None => {
                    proof {
                        newpos = prev_dbs.len() as int;
                    }
                    self.databases.push(db);
                    proof {
                        assert(self.databases@ =~= prev_dbs.push(batch[gi]));
                        assert forall|a: int, b: int|
                            0 <= a < b < self.databases@.len() implies (
                        #[trigger] self.databases@[a].id@) != (
                        #[trigger] self.databases@[b].id@) by {
                            if b == prev_dbs.len() as int {
                                assert(self.databases@[a] == prev_dbs[a]);
                                assert(!seq_has_id(prev_dbs, batch[gi].id@));
                                assert(prev_dbs[a].id@ != batch[gi].id@);
                            } else {
                                assert(self.databases@[a] == prev_dbs[a]);
                                assert(self.databases@[b] == prev_dbs[b]);
                            }
                        }
                    }
                },
            }
            proof {
                let cur = self.databases@;
                let id_new = batch[gi].id@;
                assert(0 <= newpos < cur.len());
                assert(cur[newpos] == batch[gi]);
                assert forall|x: int| 0 <= x < cur.len() && x != newpos implies cur[x]
                    == prev_dbs[x] by {}
                // membership follows the processed prefix
                assert forall|id: Seq<char>|
                    seq_has_id(cur, id) <==> seq_has_id(batch.take(gi + 1), id) by {
                    if seq_has_id(cur, id) {
                        let k = choose|k: int| 0 <= k < cur.len() && (#[trigger] cur[k].id@) == id;
                        if k == newpos {
                            assert(batch.take(gi + 1)[gi].id@ == id);
                            assert(seq_has_id(batch.take(gi + 1), id));
                        } else {
                            assert(prev_dbs[k].id@ == id);
                            assert(seq_has_id(prev_dbs, id));
                            let m = choose|m: int|
                                0 <= m < gi && (#[trigger] batch.take(gi)[m].id@) == id;
                            assert(batch.take(gi + 1)[m].id@ == id);
                            assert(seq_has_id(batch.take(gi + 1), id));
                        }
                    }
                    if seq_has_id(batch.take(gi + 1), id) {
                        let k = choose|k: int|
                            0 <= k < gi + 1 && (#[trigger] batch.take(gi + 1)[k].id@) == id;
                        if k == gi {
                            assert(cur[newpos].id@ == id);
                            assert(seq_has_id(cur, id));
                        } else {
                            assert(batch.take(gi)[k].id@ == id);
                            assert(seq_has_id(batch.take(gi), id));
                            let m = choose|m: int|
                                0 <= m < prev_dbs.len() && (#[trigger] prev_dbs[m].id@) == id;
                            if m == newpos {
                                assert(cur[m].id@ == id_new);
                                if id == id_new {
                                    assert(seq_has_id(cur, id));
                                } else {
                                    assert(false);
                                }
                            } else {
                                assert(cur[m].id@ == id);
                                assert(seq_has_id(cur, id));
                            }
                        }
                    }
                }
                // the last descriptor of each identity wins
                assert forall|j: int|
                    0 <= j < gi + 1 && no_later_id(batch, j, gi + 1) implies seq_has_id(
                        cur,
                        (#[trigger] batch[j]).id@,
                    ) && seq_at_id(cur, batch[j].id@) == batch[j] by {
                    if j == gi {
                        lemma_seq_at(cur, id_new, newpos);
                    } else {
                        assert(batch[gi].id@ != batch[j].id@);
                        assert(no_later_id(batch, j, gi));
                        assert(seq_has_id(prev_dbs, batch[j].id@));
                        let q = choose|q: int|
                            0 <= q < prev_dbs.len() && (#[trigger] prev_dbs[q].id@) == batch[j].id@;
                        lemma_seq_at(prev_dbs, batch[j].id@, q);
                        assert(prev_dbs[q] == batch[j]);
                        if q == newpos {
                            if newpos < prev_dbs.len() {
                                assert(prev_dbs[newpos].id@ == id_new);
                                assert(false);
                            }
                        }
                        assert(cur[q] == batch[j]);
                        lemma_seq_at(cur, batch[j].id@, q);
                    }
                }
            }
            proof {
                i = i + 1;
            }
        }
        proof {
            assert(batch.take(n) =~= batch);
            assert(self.conn_ids() =~= Seq::<Seq<char>>::empty());
            assert(self.wf());
        }
    }

    /// All descriptors, in unspecified order.
    pub fn get_databases(&self) -> (r: Vec<DatabaseInfo>)
        ensures
            r@ == self.dbs(),
    {
        let n = self.databases.len();
        let mut out: Vec<DatabaseInfo> = Vec::new();
        let mut i: usize = 0;
        proof {
            assert(out@ =~= self.dbs().take(0));
        }
        while i < n
            invariant
                i <= n,
                n == self.dbs().len(),
                out@ == self.dbs().take(i as int),
            decreases n - i,
        {
            out.push(clone_info(&self.databases[i]));
            proof {
                assert(out@ =~= self.dbs().take(i as int + 1));
            }
            i += 1;
        }
        proof {
            assert(self.dbs().take(n as int) =~= self.dbs());
        }
        out
    }

    /// The descriptor registered under `id`, if any.
    pub fn get_database(&self, id: &str) -> (r: Option<&DatabaseInfo>)
        requires
            self.wf(),
        ensures
            match r {
                Some(d) => self.has_db(id@) && *d == self.db_at(id@),
                None => !self.has_db(id@),
            },
    {
        match self.find_db_index(id) {
            Some(i) => {
                proof {
                    lemma_seq_at(self.dbs(), id@, i as int);
                }
                Some(&self.databases[i])
            },
            None => None,
        }
    }

    /// Removes the connection for `id` if one is live; succeeds either way.
    pub fn disconnect_database(&mut self, id: &str) -> (r: Result<(), DatabaseError>)
        requires
            old(self).wf(),
        ensures
            final(self).wf(),
            final(self).dbs() == old(self).dbs(),
            r is Ok,
            forall|x: Seq<char>|
                final(self).connected(x) <==> old(self).connected(x) && x != id@,
    {
        match self.find_conn_index(id) {
            Some(i) => {
                let ghost prev = self.connections@;
                let ghost prev_ids = self.conn_ids();
                self.connections.remove(i);
                proof {
                    let cur_ids = self.conn_ids();
                    assert forall|k: int| 0 <= k < cur_ids.len() implies #[trigger] cur_ids[k]
                        == prev_ids.remove(i as int)[k] by {
                        assert(cur_ids[k] == self.connections@[k].id@);
                        if k < i as int {
                            assert(self.connections@[k] == prev[k]);
                            assert(prev_ids[k] == prev[k].id@);
                        } else {
                            assert(self.connections@[k] == prev[k + 1]);
                            assert(prev_ids[k + 1] == prev[k + 1].id@);
                        }
                    }
                    assert(cur_ids =~= prev_ids.remove(i as int));
                    assert forall|x: Seq<char>|
                        final(self).connected(x) <==> old(self).connected(x) && x != id@ by {
                        if cur_ids.contains(x) {
                            let k = choose|k: int|
                                0 <= k < cur_ids.len() && #[trigger] cur_ids[k] == x;
                            if k < i as int {
                                assert(prev_ids[k] == x);
                                assert(x != id@);
                            } else {
                                assert(prev_ids[k + 1] == x);
                                assert(x != id@);
                            }
                        }
                        if prev_ids.contains(x) && x != id@ {
                            let k = choose|k: int|
                                0 <= k < prev_ids.len() && #[trigger] prev_ids[k] == x;
                            if k < i as int {
                                assert(cur_ids[k] == x);
                            } else {
                                assert(k != i as int);
                                assert(cur_ids[k - 1] == x);
                            }
                            assert(cur_ids.contains(x));
                        }
                    }
                }
                Ok(())
            },
            None => {
                proof {
                    assert forall|x: Seq<char>|
                        final(self).connected(x) <==> old(self).connected(x) && x != id@ by {
                        if old(self).connected(x) && x == id@ {
                        }
                    }
                }
                Ok(())
            },
        }
    }

    /// Drops every live connection; the catalog is untouched.
    pub fn disconnect_all(&mut self)
        requires
            old(self).wf(),
        ensures
            final(self).wf(),
            final(self).dbs() == old(self).dbs(),
            final(self).conn_ids().len() == 0,
    {
        self.connections.clear();
        proof {
            assert(final(self).conn_ids() =~= Seq::<Seq<char>>::empty());
        }
    }
}

/// The SQL issued to list one table's columns.
pub open spec fn table_info_sql_spec(table: Seq<char>) -> Seq<char> {
    "PRAGMA table_info("@ + table + ")"@
}

/// The SQL issued to count one table's rows.
pub open spec fn count_sql_spec(table: Seq<char>) -> Seq<char> {
    "SELECT COUNT(*) FROM "@ + table
}

/// The key directive: the key material is interpolated exactly as stored.
pub open spec fn key_pragma_spec(key: Seq<char>) -> Seq<char> {
    "PRAGMA key = \""@ + key + "\""@
}

/// The windowed fetch over one table: limit and offset clauses are appended
/// only when the caller supplied them.
pub open spec fn select_sql_spec(table: Seq<char>, limit: Option<i64>, offset: Option<i64>) -> Seq<
    char,
> {
    let base = "SELECT * FROM "@ + table;
    let with_limit = if limit is Some {
        base + " LIMIT "@ + i64_dec_spec(limit->0 as int)
    } else {
        base
    };
    if offset is Some {
        with_limit + " OFFSET "@ + i64_dec_spec(offset->0 as int)
    } else {
        with_limit
    }
}

fn build_table_info_sql(table: &str) -> (sql: String)
    ensures
        sql@ == table_info_sql_spec(table@),
{
    let mut s = String::from_str("PRAGMA table_info(");
    s.append(table);
    s.append(")");
    s
}

fn build_count_sql(table: &str) -> (sql: String)
    ensures
        sql@ == count_sql_spec(table@),
{
    let mut s = String::from_str("SELECT COUNT(*) FROM ");
    s.append(table);
    s
}

fn build_key_pragma(key: &str) -> (sql: String)
    ensures
        sql@ == key_pragma_spec(key@),
{
    let mut s = String::from_str("PRAGMA key = \"");
    s.append(key);
    s.append("\"");
    s
}

/// Builds the fetch statement: a plain select with the optional window.
pub fn build_select_sql(table: &str, limit: Option<i64>, offset: Option<i64>) -> (sql: String)
    ensures
        sql@ == select_sql_spec(table@, limit, offset),
{
    let mut s = String::from_str("SELECT * FROM ");
    s.append(table);
    if let Some(l) = limit {
        s.append(" LIMIT ");
        let d = i64_to_dec(l);
        s.append(d.as_str());
    }
    if let Some(o) = offset {
        s.append(" OFFSET ");
        let d = i64_to_dec(o);
        s.append(d.as_str());
    }
    proof {
        assert(s@ =~= select_sql_spec(table@, limit, offset));
    }
    s
}

/// Converts the engine's raw column rows into column descriptions, in order.
pub fn columns_from_raw(raw: Vec<RawColumn>) -> (r: Vec<ColumnInfo>)
    ensures
        columns_match(raw@, r@),
{
    let ghost rawv = raw@;
    let mut rest = raw;
    let mut out: Vec<ColumnInfo> = Vec::new();
    proof {
        assert(rawv.skip(0) =~= rawv);
    }
    while rest.len() > 0
        invariant
            out@.len() + rest@.len() == rawv.len(),
            rest@ == rawv.skip(out@.len() as int),
            forall|i: int| 0 <= i < out@.len() ==> column_from_raw(rawv[i], #[trigger] out@[i]),
        decreases rest@.len(),
    {
        let ghost k = out@.len() as int;
        let c = rest.remove(0);
        proof {
            assert(rawv.skip(k)[0] == rawv[k]);
            assert(rawv.skip(k).remove(0) =~= rawv.skip(k + 1));
        }
        out.push(
            ColumnInfo {
                name: c.name,
                data_type: c.data_type,
                nullable: c.notnull == 0,
                primary_key: c.pk != 0,
            },
        );
    }
    out
}

/// Assembles one table description per fetched name, in order: the i-th
/// result carries the i-th name, the converted form of the i-th raw column
/// list, and exactly the i-th count.
pub fn assemble_tables(names: Vec<String>, cols: Vec<Vec<RawColumn>>, counts: Vec<i64>) -> (r: Vec<
    TableInfo,
>)
    requires
        cols@.len() == names@.len(),
        counts@.len() == names@.len(),
    ensures
        r@.len() == names@.len(),
        forall|i: int|
            0 <= i < r@.len() ==> (#[trigger] r@[i]).name == names@[i] && r@[i].row_count == Some(
                counts@[i],
            ) && columns_match(cols@[i]@, r@[i].columns@),
{
    let ghost namesv = names@;
    let ghost colsv = cols@;
    let ghost countsv = counts@;
    let mut names_rest = names;
    let mut cols_rest = cols;
    let mut counts_rest = counts;
    let mut out: Vec<TableInfo> = Vec::new();
    proof {
        assert(namesv.skip(0) =~= namesv);
        assert(colsv.skip(0) =~= colsv);
        assert(countsv.skip(0) =~= countsv);
    }
    while names_rest.len() > 0
        invariant
            out@.len() + names_rest@.len() == namesv.len(),
            names_rest@ == namesv.skip(out@.len() as int),
            cols_rest@ == colsv.skip(out@.len() as int),
            counts_rest@ == countsv.skip(out@.len() as int),
            colsv.len() == namesv.len(),
            countsv.len() == namesv.len(),
            forall|i: int|
                0 <= i < out@.len() ==> (#[trigger] out@[i]).name == namesv[i] && out@[i].row_count
                    == Some(countsv[i]) && columns_match(colsv[i]@, out@[i].columns@),
        decreases names_rest@.len(),
    {
        let ghost k = out@.len() as int;
        let name = names_rest.remove(0);
        let raw_cols = cols_rest.remove(0);
        let count = counts_rest.remove(0);
        proof {
            assert(namesv.skip(k)[0] == namesv[k]);
            assert(colsv.skip(k)[0] == colsv[k]);
            assert(countsv.skip(k)[0] == countsv[k]);
            assert(namesv.skip(k).remove(0) =~= namesv.skip(k + 1));
            assert(colsv.skip(k).remove(0) =~= colsv.skip(k + 1));
            assert(countsv.skip(k).remove(0) =~= countsv.skip(k + 1));
        }
        let columns = columns_from_raw(raw_cols);
        out.push(TableInfo { name, columns, row_count: Some(count) });
    }
    out
}

/// Issues the fixed compatibility-directive sequence against a fresh
/// handle, in this exact order: compatibility mode, key, page size,
/// derivation iterations, HMAC algorithm, derivation algorithm. The first
/// failing directive aborts the sequence.
fn configure_connection(conn: &rusqlite::Connection, key: &str) -> (r: Result<(), String>) {
    exec_directive(conn, "PRAGMA cipher_compatibility = 3")?;
    let key_sql = build_key_pragma(key);
    exec_directive(conn, key_sql.as_str())?;
    exec_directive(conn, "PRAGMA cipher_page_size = 1024")?;
    exec_directive(conn, "PRAGMA kdf_iter = 64000")?;
    exec_directive(conn, "PRAGMA cipher_hmac_algorithm = HMAC_SHA1")?;
    exec_directive(conn, "PRAGMA cipher_kdf_algorithm = PBKDF2_HMAC_SHA1")?;
    Ok(())
}

impl DatabaseManager {
    /// Connects to the database registered under `id`: resolves the
    /// descriptor, refuses an inaccessible one, opens and configures a
    /// handle, validates decryption with a trivial catalog query, and only
    /// on full success registers the connection (replacing any prior one
    /// for the same identity). No partial connection is ever registered.
    pub fn connect_database(&mut self, id: &str) -> (r: Result<(), DatabaseError>)
        requires
            old(self).wf(),
        ensures
            final(self).wf(),
            final(self).dbs() == old(self).dbs(),
            !old(self).has_db(id@) ==> r matches Err(DatabaseError::NotFound(_)),
            old(self).has_db(id@) && !old(self).db_at(id@).accessible ==> r matches Err(
                DatabaseError::AccessDenied(_),
            ),
            old(self).has_db(id@) && old(self).db_at(id@).accessible ==> r is Ok || r matches Err(
                DatabaseError::ConnectionFailed(_),
            ),
            !(r is Ok) ==> final(self).conn_ids() == old(self).conn_ids(),
            r is Ok ==> forall|x: Seq<char>|
                final(self).connected(x) <==> old(self).connected(x) || x == id@,
    {
        let idx = match self.find_db_index(id) {
            Some(i) => i,
            None => {
                return Err(DatabaseError::NotFound(String::from_str(id)));
            },
        };
        proof {
            lemma_seq_at(self.dbs(), id@, idx as int);
        }
        if !self.databases[idx].accessible {
            return Err(DatabaseError::AccessDenied(String::from_str(id)));
        }
        let path = self.databases[idx].path.clone();
        let key = self.databases[idx].key.clone();
        let conn = match open_connection(path.as_str()) {
            Ok(c) => c,
            Err(e) => {
                return Err(DatabaseError::ConnectionFailed(e));
            },
        };
        match configure_connection(&conn, key.as_str()) {
            Ok(()) => {},
            Err(e) => {
                return Err(DatabaseError::ConnectionFailed(e));
            },
        }
        match query_strings(&conn, "SELECT name FROM sqlite_master WHERE type='table' LIMIT 1") {
            Ok(_) => {},
            Err(e) => {
                return Err(DatabaseError::ConnectionFailed(e));
            },
        }
        let entry = PoolEntry { id: String::from_str(id), conn };
        let ghost prev = self.connections@;
        let ghost prev_ids = self.conn_ids();
        match self.find_conn_index(id) {
            Some(i) => {
                self.connections.remove(i);
                self.connections.insert(i, entry);
                proof {
                    let cur_ids = self.conn_ids();
                    assert forall|k: int| 0 <= k < cur_ids.len() implies #[trigger] cur_ids[k]
                        == prev_ids[k] by {
                        assert(cur_ids[k] == self.connections@[k].id@);
                        assert(prev_ids[k] == prev[k].id@);
                        if k != i as int {
                            assert(self.connections@[k] == prev[k]);
                        }
                    }
                    assert(cur_ids =~= prev_ids);
                    assert(prev_ids[i as int] == id@);
                    assert forall|x: Seq<char>|
                        self.connected(x) <==> old(self).connected(x) || x == id@ by {
                        if x == id@ {
                            assert(cur_ids[i as int] == id@);
                            assert(cur_ids.contains(x));
                        }
                    }
                }
            },
            None => {
                self.connections.push(entry);
                proof {
                    let cur_ids = self.conn_ids();
                    assert forall|k: int| 0 <= k < cur_ids.len() implies #[trigger] cur_ids[k]
                        == prev_ids.push(id@)[k] by {
                        assert(cur_ids[k] == self.connections@[k].id@);
                        if k < prev.len() {
                            assert(self.connections@[k] == prev[k]);
                            assert(prev_ids[k] == prev[k].id@);
                        }
                    }
                    assert(cur_ids =~= prev_ids.push(id@));
                    assert forall|a: int, b: int|
                        0 <= a < b < cur_ids.len() implies cur_ids[a] != cur_ids[b] by {
                        if b == cur_ids.len() - 1 {
                            if prev_ids.contains(cur_ids[a]) {
                            }
                            assert(prev_ids[a] == cur_ids[a]);
                            if cur_ids[a] == id@ {
                                assert(old(self).connected(id@));
                            }
                        }
                    }
                    assert forall|x: Seq<char>|
                        self.connected(x) <==> old(self).connected(x) || x == id@ by {
                        if self.connected(x) {
                            let k = choose|k: int|
                                0 <= k < cur_ids.len() && #[trigger] cur_ids[k] == x;
                            if k < prev_ids.len() {
                                assert(prev_ids[k] == x);
                            }
                        }
                        if old(self).connected(x) {
                            let k = choose|k: int|
                                0 <= k < prev_ids.len() && #[trigger] prev_ids[k] == x;
                            assert(cur_ids[k] == x);
                        }
                        if x == id@ {
                            assert(cur_ids[cur_ids.len() - 1] == x);
                        }
                    }
                }
            },
        }
        Ok(())
    }

    /// Lists every table of the connected database in lexicographic order,
    /// with its columns and exact row count; any single table's
    /// introspection failure aborts the whole call. The engine's answers
    /// (the fetched names, raw columns and counts) are gathered first, and
    /// `assemble_tables` turns them into the result with an exact contract:
    /// one entry per fetched name, in order, with that name, the converted
    /// columns, and exactly that count.
    pub fn get_tables(&self, db_id: &str) -> (r: Result<Vec<TableInfo>, DatabaseError>)
        ensures
            !self.connected(db_id@) ==> r matches Err(DatabaseError::NotFound(_)),
            self.connected(db_id@) ==> r is Ok || r matches Err(DatabaseError::Engine(_)),
            r is Ok ==> forall|i: int|
                0 <= i < r->Ok_0@.len() ==> (#[trigger] r->Ok_0@[i]).row_count is Some,
    {
        let ci = match self.find_conn_index(db_id) {
            Some(i) => i,
            None => {
                return Err(DatabaseError::NotFound(String::from_str(db_id)));
            },
        };
        let conn = &self.connections[ci].conn;
        let names = match query_strings(
            conn,
            "SELECT name FROM sqlite_master WHERE type='table' ORDER BY name",
        ) {
            Ok(v) => v,
            Err(e) => {
                return Err(DatabaseError::Engine(e));
            },
        };
        let n = names.len();
        let mut cols: Vec<Vec<RawColumn>> = Vec::new();
        let mut counts: Vec<i64> = Vec::new();
        let mut i: usize = 0;
        while i < n
            invariant
                self.connected(db_id@),
                i <= n,
                n == names@.len(),
                cols@.len() == i,
                counts@.len() == i,
            decreases n - i,
        {
            let sql = build_table_info_sql(names[i].as_str());
            let raw_cols = match query_columns(conn, sql.as_str()) {
                Ok(v) => v,
                Err(e) => {
                    return Err(DatabaseError::Engine(e));
                },
            };
            let csql = build_count_sql(names[i].as_str());
            let count = match query_count(conn, csql.as_str()) {
                Ok(c) => c,
                Err(e) => {
                    return Err(DatabaseError::Engine(e));
                },
            };
            cols.push(raw_cols);
            counts.push(count);
            i += 1;
        }
        Ok(assemble_tables(names, cols, counts))
    }

    /// Fetches a window of one table: the rows honour the limit and offset,
    /// while `total_rows` is always the table's unrestricted cardinality,
    /// counted by a second, unbounded query.
    pub fn query_table(
        &self,
        db_id: &str,
        table_name: &str,
        limit: Option<i64>,
        offset: Option<i64>,
    ) -> (r: Result<QueryResult, DatabaseError>)
        ensures
            !self.connected(db_id@) ==> r matches Err(DatabaseError::NotFound(_)),
            self.connected(db_id@) ==> r is Ok || r matches Err(DatabaseError::Engine(_)),
            r is Ok ==> result_well_formed(r->Ok_0),
            r is Ok ==> result_json_safe(r->Ok_0),
    {
        let ci = match self.find_conn_index(db_id) {
            Some(i) => i,
            None => {
                return Err(DatabaseError::NotFound(String::from_str(db_id)));
            },
        };
        let conn = &self.connections[ci].conn;
        let sql = build_select_sql(table_name, limit, offset);
        let raw = match query_raw(conn, sql.as_str()) {
            Ok(t) => t,
            Err(e) => {
                return Err(DatabaseError::Engine(e));
            },
        };
        let csql = build_count_sql(table_name);
        let total = match query_count(conn, csql.as_str()) {
            Ok(c) => c,
            Err(e) => {
                return Err(DatabaseError::Engine(e));
            },
        };
        let ghost rawrows = raw.rows@.map_values(|row: Vec<crate::cells::RawCell>| row@);
        let ghost ncols = raw.columns@.len();
        let rows = rows_from_raw(raw.rows);
        let out = QueryResult { columns: raw.columns, rows, total_rows: total };
        proof {
            assert forall|i: int| 0 <= i < out.rows@.len() implies (#[trigger] out.rows@[i])@.len()
                == out.columns@.len() by {
                assert(row_coerced(rawrows[i], out.rows@.map_values(|row: Vec<CellValue>| row@)[i]));
                assert(out.rows@.map_values(|row: Vec<CellValue>| row@)[i] == out.rows@[i]@);
                assert(rawrows[i].len() == ncols);
            }
            lemma_coerced_rows_json_safe(
                rawrows,
                out.rows@.map_values(|row: Vec<CellValue>| row@),
            );
            assert forall|i: int, j: int|
                0 <= i < out.rows@.len() && 0 <= j < out.rows@[i]@.len() implies cell_json_safe(
                #[trigger] out.rows@[i]@[j]) by {
                let outm = out.rows@.map_values(|row: Vec<CellValue>| row@);
                assert(outm[i] == out.rows@[i]@);
                assert(cell_json_safe(outm[i][j]));
            }
        }
        Ok(out)
    }

    /// Runs arbitrary SQL verbatim; `total_rows` is exactly the number of
    /// returned rows — never a table cardinality.
    pub fn execute_query(&self, db_id: &str, query: &str) -> (r: Result<QueryResult, DatabaseError>)
        ensures
            !self.connected(db_id@) ==> r matches Err(DatabaseError::NotFound(_)),
            self.connected(db_id@) ==> r is Ok || r matches Err(DatabaseError::Engine(_)),
            r is Ok ==> result_well_formed(r->Ok_0),
            r is Ok ==> result_json_safe(r->Ok_0),
            r is Ok ==> r->Ok_0.total_rows as int == r->Ok_0.rows@.len(),
    {
        let ci = match self.find_conn_index(db_id) {
            Some(i) => i,
            None => {
                return Err(DatabaseError::NotFound(String::from_str(db_id)));
            },
        };
        let conn = &self.connections[ci].conn;
        let raw = match query_raw(conn, query) {
            Ok(t) => t,
            Err(e) => {
                return Err(DatabaseError::Engine(e));
            },
        };
        let ghost rawrows = raw.rows@.map_values(|row: Vec<crate::cells::RawCell>| row@);
        let ghost ncols = raw.columns@.len();
        let rows = rows_from_raw(raw.rows);
        let total = rows.len() as i64;
        let out = QueryResult { columns: raw.columns, rows, total_rows: total };
        proof {
            assert forall|i: int| 0 <= i < out.rows@.len() implies (#[trigger] out.rows@[i])@.len()
                == out.columns@.len() by {
                assert(row_coerced(rawrows[i], out.rows@.map_values(|row: Vec<CellValue>| row@)[i]));
                assert(out.rows@.map_values(|row: Vec<CellValue>| row@)[i] == out.rows@[i]@);
                assert(rawrows[i].len() == ncols);
            }
            lemma_coerced_rows_json_safe(
                rawrows,
                out.rows@.map_values(|row: Vec<CellValue>| row@),
            );
            assert forall|i: int, j: int|
                0 <= i < out.rows@.len() && 0 <= j < out.rows@[i]@.len() implies cell_json_safe(
                #[trigger] out.rows@[i]@[j]) by {
                let outm = out.rows@.map_values(|row: Vec<CellValue>| row@);
                assert(outm[i] == out.rows@[i]@);
                assert(cell_json_safe(outm[i][j]));
            }
        }
        Ok(out)
    }
}

/// Whether no later batch element (before `upto`) reuses the identity of
/// the element at `j`.
pub open spec fn no_later_id(batch: Seq<DatabaseInfo>, j: int, upto: int) -> bool {
    forall|k: int| j < k < upto ==> (#[trigger] batch[k].id@) != batch[j].id@
}

/// An exact copy of a descriptor.
pub fn clone_info(info: &DatabaseInfo) -> (r: DatabaseInfo)
    ensures
        r == *info,
{
    DatabaseInfo {
        id: info.id.clone(),
        path: info.path.clone(),
        key: info.key.clone(),
        cipher_compatibility: info.cipher_compatibility,
        db_type: info.db_type.clone(),
        filename: info.filename.clone(),
        size: info.size,
        accessible: info.accessible,
        last_modified: match &info.last_modified {
            Some(s) => Some(s.clone()),
            None => None,
        },
    }
}

} // verus!
