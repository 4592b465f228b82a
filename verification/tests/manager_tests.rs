use wechat_db_manager::descriptor::create_database_info;
use wechat_db_manager::descriptor::DatabaseInfo;
use wechat_db_manager::descriptor::FileStat;
use wechat_db_manager::manager::DatabaseManager;
use wechat_db_manager::DatabaseError;

fn info(path: &str, key: &str, accessible: bool) -> DatabaseInfo {
    let stat = FileStat { exists: accessible, size: None, modified_secs: None };
    create_database_info(path, key, &stat)
}

#[test]
fn load_then_get_database() {
    let mut mgr = DatabaseManager::new();
    let a = info("/data/a/a.db", "ka", true);
    let id = a.id.clone();
    mgr.load_databases(vec![a]);
    let got = mgr.get_database(&id).expect("descriptor should be registered");
    assert_eq!(got.path, "/data/a/a.db");
    assert!(mgr.get_database("no-such-identity").is_none());
}

#[test]
fn get_databases_returns_all() {
    let mut mgr = DatabaseManager::new();
    mgr.load_databases(vec![info("/d/x/x.db", "kx", true), info("/d/y/y.db", "ky", false)]);
    let all = mgr.get_databases();
    assert_eq!(all.len(), 2);
    let mut paths: Vec<String> = all.iter().map(|d| d.path.clone()).collect();
    paths.sort();
    assert_eq!(paths, vec!["/d/x/x.db".to_string(), "/d/y/y.db".to_string()]);
}

#[test]
fn reload_replaces_every_prior_descriptor() {
    let mut mgr = DatabaseManager::new();
    let old_entry = info("/old/gone/gone.db", "k1", true);
    let old_id = old_entry.id.clone();
    mgr.load_databases(vec![old_entry]);
    assert!(mgr.get_database(&old_id).is_some());

    let new_entry = info("/new/kept/kept.db", "k2", true);
    let new_id = new_entry.id.clone();
    mgr.load_databases(vec![new_entry]);
    assert!(mgr.get_database(&old_id).is_none());
    assert!(mgr.get_database(&new_id).is_some());
    assert_eq!(mgr.get_databases().len(), 1);
}

#[test]
fn load_with_colliding_identity_keeps_last() {
    let mut mgr = DatabaseManager::new();
    // identical path, key and stats give the identical identity
    let first = info("/same/s/s.db", "k", true);
    let mut second = info("/same/s/s.db", "k", true);
    second.db_type = "overridden".to_string();
    let id = first.id.clone();
    assert_eq!(first.id, second.id);
    mgr.load_databases(vec![first, second]);
    assert_eq!(mgr.get_databases().len(), 1);
    assert_eq!(mgr.get_database(&id).unwrap().db_type, "overridden");
}

#[test]
fn connect_unknown_identity_is_not_found() {
    let mut mgr = DatabaseManager::new();
    match mgr.connect_database("missing") {
        Err(DatabaseError::NotFound(_)) => {}
        other => panic!("expected NotFound, got {:?}", other),
    }
}

#[test]
fn connect_inaccessible_descriptor_is_access_denied() {
    let mut mgr = DatabaseManager::new();
    let d = info("/nowhere/z/z.db", "kz", false);
    let id = d.id.clone();
    mgr.load_databases(vec![d]);
    match mgr.connect_database(&id) {
        Err(DatabaseError::AccessDenied(_)) => {}
        other => panic!("expected AccessDenied, got {:?}", other),
    }
}

#[test]
fn disconnect_without_connection_succeeds() {
    let mut mgr = DatabaseManager::new();
    assert!(mgr.disconnect_database("never-connected").is_ok());
    let d = info("/d/w/w.db", "kw", true);
    let id = d.id.clone();
    mgr.load_databases(vec![d]);
    // registered but never connected: still fine
    assert!(mgr.disconnect_database(&id).is_ok());
    assert!(mgr.disconnect_database(&id).is_ok());
}

#[test]
fn operations_without_connection_are_not_found() {
    let mgr = DatabaseManager::new();
    assert!(matches!(mgr.get_tables("nope"), Err(DatabaseError::NotFound(_))));
    assert!(matches!(
        mgr.query_table("nope", "t", None, None),
        Err(DatabaseError::NotFound(_))
    ));
    assert!(matches!(
        mgr.execute_query("nope", "SELECT 1"),
        Err(DatabaseError::NotFound(_))
    ));
}

#[test]
fn error_messages_carry_their_detail() {
    assert_eq!(
        DatabaseError::NotFound("abc".to_string()).message(),
        "Database not found: abc"
    );
    assert_eq!(
        DatabaseError::AccessDenied("x".to_string()).message(),
        "Access denied: x"
    );
    assert_eq!(
        DatabaseError::ConnectionFailed("why".to_string()).message(),
        "Connection failed: why"
    );
}
