//! End-to-end tests against real database files: the library connects
//! through its own pool and runs queries through the engine.
use wechat_db_manager::cells::coerce_cell;
use wechat_db_manager::cells::CellValue;
use wechat_db_manager::cells::RawCell;
use wechat_db_manager::descriptor::create_database_info;
use wechat_db_manager::descriptor::FileStat;
use wechat_db_manager::manager::DatabaseManager;
use wechat_db_manager::DatabaseError;

// The same compatibility-directive sequence the library issues on connect,
// so that the created file is encrypted exactly as a connect expects.
const CIPHER_SETUP: &str = "PRAGMA cipher_compatibility = 3;\
     PRAGMA key = \"x'00'\";\
     PRAGMA cipher_page_size = 1024;\
     PRAGMA kdf_iter = 64000;\
     PRAGMA cipher_hmac_algorithm = HMAC_SHA1;\
     PRAGMA cipher_kdf_algorithm = PBKDF2_HMAC_SHA1;";

fn prepare_db(path: &str, setup: &str) {
    let conn = rusqlite::Connection::open(path).expect("open test database");
    conn.execute_batch(&format!("{}{}", CIPHER_SETUP, setup)).expect("set up test database");
}

fn connected_manager(path: &str) -> (DatabaseManager, String) {
    let stat = FileStat { exists: true, size: None, modified_secs: None };
    let info = create_database_info(path, "x'00'", &stat);
    let id = info.id.clone();
    let mut mgr = DatabaseManager::new();
    mgr.load_databases(vec![info]);
    mgr.connect_database(&id).expect("connect to test database");
    (mgr, id)
}

#[test]
fn fetch_table_window_and_total() {
    let path = "/tmp/wdm_enc_window.db";
    prepare_db(
        path,
        "DROP TABLE IF EXISTS items;\
         CREATE TABLE items (n INTEGER);\
         INSERT INTO items VALUES (10), (20), (30), (40), (50);",
    );
    let (mgr, id) = connected_manager(path);
    let res = mgr.query_table(&id, "items", Some(2), Some(1)).expect("fetch window");
    // exactly rows 2 and 3 in insertion order, but the full cardinality
    assert_eq!(res.columns, vec!["n".to_string()]);
    assert_eq!(res.rows.len(), 2);
    assert_eq!(res.rows[0], vec![CellValue::Integer(20)]);
    assert_eq!(res.rows[1], vec![CellValue::Integer(30)]);
    assert_eq!(res.total_rows, 5);

    // an unwindowed fetch returns everything
    let full = mgr.query_table(&id, "items", None, None).expect("full fetch");
    assert_eq!(full.rows.len(), 5);
    assert_eq!(full.total_rows, 5);
}

#[test]
fn run_query_counts_returned_rows_only() {
    let path = "/tmp/wdm_enc_select1.db";
    prepare_db(
        path,
        "DROP TABLE IF EXISTS filler;\
         CREATE TABLE filler (x INTEGER);\
         INSERT INTO filler VALUES (1), (2), (3);",
    );
    let (mgr, id) = connected_manager(path);
    let res = mgr.execute_query(&id, "SELECT 1").expect("run query");
    assert_eq!(res.columns, vec!["1".to_string()]);
    assert_eq!(res.rows, vec![vec![CellValue::Integer(1)]]);
    assert_eq!(res.total_rows, 1);
}

#[test]
fn stored_integer_in_text_column_round_trips_as_text() {
    let path = "/tmp/wdm_enc_affinity.db";
    prepare_db(
        path,
        "DROP TABLE IF EXISTS notes;\
         CREATE TABLE notes (body TEXT);\
         INSERT INTO notes VALUES (42);",
    );
    let (mgr, id) = connected_manager(path);
    let res = mgr.execute_query(&id, "SELECT body FROM notes").expect("read notes");
    // the text read is attempted first and accepted, so the stored 42
    // comes back as the string it was coerced to on insert — not a number
    assert_eq!(res.rows, vec![vec![CellValue::Text("42".to_string())]]);
}

#[test]
fn coercion_order_prefers_text_over_integer() {
    let cell = RawCell {
        text_ok: true,
        text: Some("7".to_string()),
        int: Some(7),
        real_bits: None,
    };
    assert_eq!(coerce_cell(cell), CellValue::Text("7".to_string()));
    let null_cell = RawCell { text_ok: true, text: None, int: Some(9), real_bits: None };
    assert_eq!(coerce_cell(null_cell), CellValue::Null);
    let int_cell = RawCell { text_ok: false, text: None, int: Some(9), real_bits: None };
    assert_eq!(coerce_cell(int_cell), CellValue::Integer(9));
    let real_cell = RawCell {
        text_ok: false,
        text: None,
        int: None,
        real_bits: Some(1.5f64.to_bits()),
    };
    assert_eq!(coerce_cell(real_cell), CellValue::Float(1.5f64.to_bits()));
    let inf_cell = RawCell {
        text_ok: false,
        text: None,
        int: None,
        real_bits: Some(f64::INFINITY.to_bits()),
    };
    assert_eq!(coerce_cell(inf_cell), CellValue::Integer(0));
    let empty_cell = RawCell { text_ok: false, text: None, int: None, real_bits: None };
    assert_eq!(coerce_cell(empty_cell), CellValue::Null);
}

#[test]
fn real_values_come_back_as_finite_float_bits() {
    let path = "/tmp/wdm_enc_real.db";
    prepare_db(
        path,
        "DROP TABLE IF EXISTS metrics;\
         CREATE TABLE metrics (v REAL);\
         INSERT INTO metrics VALUES (2.5);",
    );
    let (mgr, id) = connected_manager(path);
    let res = mgr.execute_query(&id, "SELECT v FROM metrics").expect("read metrics");
    assert_eq!(res.rows, vec![vec![CellValue::Float(2.5f64.to_bits())]]);
}

#[test]
fn null_cells_are_null() {
    let path = "/tmp/wdm_enc_null.db";
    prepare_db(
        path,
        "DROP TABLE IF EXISTS maybe;\
         CREATE TABLE maybe (v TEXT);\
         INSERT INTO maybe VALUES (NULL);",
    );
    let (mgr, id) = connected_manager(path);
    let res = mgr.execute_query(&id, "SELECT v FROM maybe").expect("read maybe");
    assert_eq!(res.rows, vec![vec![CellValue::Null]]);
}

#[test]
fn get_tables_reports_schema_and_counts() {
    let path = "/tmp/wdm_enc_schema.db";
    prepare_db(
        path,
        "DROP TABLE IF EXISTS zzz;\
         DROP TABLE IF EXISTS aaa;\
         CREATE TABLE zzz (id INTEGER PRIMARY KEY, label TEXT NOT NULL);\
         CREATE TABLE aaa (v REAL);\
         INSERT INTO zzz (label) VALUES ('x'), ('y');",
    );
    let (mgr, id) = connected_manager(path);
    let tables = mgr.get_tables(&id).expect("list tables");
    assert_eq!(tables.len(), 2);
    // lexicographic order
    assert_eq!(tables[0].name, "aaa");
    assert_eq!(tables[1].name, "zzz");
    assert_eq!(tables[0].row_count, Some(0));
    assert_eq!(tables[1].row_count, Some(2));
    let zzz = &tables[1];
    assert_eq!(zzz.columns.len(), 2);
    assert_eq!(zzz.columns[0].name, "id");
    assert_eq!(zzz.columns[0].data_type, "INTEGER");
    assert!(zzz.columns[0].primary_key);
    assert!(zzz.columns[0].nullable);
    assert_eq!(zzz.columns[1].name, "label");
    assert!(!zzz.columns[1].nullable);
    assert!(!zzz.columns[1].primary_key);
}

#[test]
fn composite_primary_key_members_are_all_reported() {
    let path = "/tmp/wdm_enc_composite.db";
    prepare_db(
        path,
        "DROP TABLE IF EXISTS pairs;\
         CREATE TABLE pairs (a INTEGER, b INTEGER, c TEXT, PRIMARY KEY (a, b));",
    );
    let (mgr, id) = connected_manager(path);
    let tables = mgr.get_tables(&id).expect("list tables");
    let pairs = &tables[0];
    assert_eq!(pairs.name, "pairs");
    assert!(pairs.columns[0].primary_key);
    // the second member of the composite key has rank 2 and is still a member
    assert!(pairs.columns[1].primary_key);
    assert!(!pairs.columns[2].primary_key);
}

#[test]
fn reload_invalidates_live_connections() {
    let path = "/tmp/wdm_enc_reload.db";
    prepare_db(path, "DROP TABLE IF EXISTS t; CREATE TABLE t (a INTEGER);");
    let (mut mgr, id) = connected_manager(path);
    assert!(mgr.execute_query(&id, "SELECT 1").is_ok());
    // reloading the catalog destroys every prior connection, even when the
    // same identity reappears in the new batch
    let stat = FileStat { exists: true, size: None, modified_secs: None };
    mgr.load_databases(vec![create_database_info(path, "x'00'", &stat)]);
    assert!(matches!(
        mgr.execute_query(&id, "SELECT 1"),
        Err(DatabaseError::NotFound(_))
    ));
}

#[test]
fn wrong_key_fails_to_connect() {
    let path = "/tmp/wdm_enc_wrongkey.db";
    prepare_db(path, "DROP TABLE IF EXISTS t; CREATE TABLE t (a INTEGER);");
    let stat = FileStat { exists: true, size: None, modified_secs: None };
    let info = create_database_info(path, "x'deadbeef'", &stat);
    let id = info.id.clone();
    let mut mgr = DatabaseManager::new();
    mgr.load_databases(vec![info]);
    // decryption with the wrong key fails at the validation query
    assert!(matches!(
        mgr.connect_database(&id),
        Err(DatabaseError::ConnectionFailed(_))
    ));
}

#[test]
fn vanished_file_fails_to_connect() {
    // the descriptor claims accessibility, but no file exists at the path:
    // the open must fail rather than create a fresh empty database
    let stat = FileStat { exists: true, size: None, modified_secs: None };
    let info = create_database_info("/tmp/wdm_enc_never_created.db", "x'00'", &stat);
    let id = info.id.clone();
    let mut mgr = DatabaseManager::new();
    mgr.load_databases(vec![info]);
    assert!(matches!(
        mgr.connect_database(&id),
        Err(DatabaseError::ConnectionFailed(_))
    ));
}

#[test]
fn engine_failures_surface_as_engine_errors() {
    let path = "/tmp/wdm_enc_badsql.db";
    prepare_db(path, "DROP TABLE IF EXISTS t; CREATE TABLE t (a INTEGER);");
    let (mgr, id) = connected_manager(path);
    assert!(matches!(
        mgr.execute_query(&id, "SELECT nonsense FROM nowhere"),
        Err(DatabaseError::Engine(_))
    ));
    assert!(matches!(
        mgr.query_table(&id, "missing_table", None, None),
        Err(DatabaseError::Engine(_))
    ));
}

#[test]
fn disconnect_closes_the_live_connection() {
    let path = "/tmp/wdm_enc_disc.db";
    prepare_db(path, "DROP TABLE IF EXISTS t; CREATE TABLE t (a INTEGER);");
    let (mut mgr, id) = connected_manager(path);
    assert!(mgr.execute_query(&id, "SELECT 1").is_ok());
    mgr.disconnect_database(&id).expect("disconnect");
    assert!(matches!(
        mgr.execute_query(&id, "SELECT 1"),
        Err(DatabaseError::NotFound(_))
    ));
    // reconnect works
    mgr.connect_database(&id).expect("reconnect");
    assert!(mgr.execute_query(&id, "SELECT 1").is_ok());
    mgr.disconnect_all();
    assert!(matches!(
        mgr.execute_query(&id, "SELECT 1"),
        Err(DatabaseError::NotFound(_))
    ));
}
