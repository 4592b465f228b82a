use wechat_db_manager::descriptor::create_database_info;
use wechat_db_manager::descriptor::extract_db_type;
use wechat_db_manager::descriptor::extract_filename;
use wechat_db_manager::descriptor::generate_id;
use wechat_db_manager::descriptor::FileStat;

const ABSENT: FileStat = FileStat { exists: false, size: None, modified_secs: None };

#[test]
fn filename_is_last_segment() {
    assert_eq!(extract_filename("/data/msg/Msg.db"), "Msg.db");
    assert_eq!(extract_filename("relative/x.db"), "x.db");
    assert_eq!(extract_filename("/trailing/slash/"), "slash");
    assert_eq!(extract_filename(""), "unknown");
    assert_eq!(extract_filename("///"), "unknown");
}

#[test]
fn filename_handles_dot_segments() {
    // a bare current-directory dot is skipped
    assert_eq!(extract_filename("/data/msg/."), "msg");
    assert_eq!(extract_filename("."), "unknown");
    // a trailing parent-directory marker leaves no filename
    assert_eq!(extract_filename("/data/msg/.."), "unknown");
    assert_eq!(extract_filename(".."), "unknown");
    // an interior marker does not affect the last segment
    assert_eq!(extract_filename("a/../b"), "b");
    // dots inside a name are ordinary characters
    assert_eq!(extract_filename("/x/...") , "...");
}

#[test]
fn db_type_is_parent_of_db_segment() {
    assert_eq!(extract_db_type("/data/msg/Msg.db"), "msg");
    assert_eq!(extract_db_type("/data/contact/Contact.db"), "contact");
    assert_eq!(extract_db_type("/data/plain.txt"), "unknown");
    // the very first segment of the whole path never counts
    assert_eq!(extract_db_type("top.db"), "unknown");
    // the scan runs from the end: the last matching segment wins
    assert_eq!(extract_db_type("/a.db/b/c.db"), "b");
}

// The identity hash documented by the library: 64-bit FNV-1a over the
// path's characters, a separator, the key's characters, then size and
// modification time when present, rendered in lowercase hex.
fn expected_id(path: &str, key: &str, stat: &FileStat) -> String {
    let mut h: u64 = 0xcbf29ce484222325;
    let step = |h: u64, x: u64| (h ^ x).wrapping_mul(0x100000001b3);
    for c in path.chars() {
        h = step(h, c as u64);
    }
    h = step(h, 0x110000);
    for c in key.chars() {
        h = step(h, c as u64);
    }
    if let Some(n) = stat.size {
        h = step(h, n);
    }
    if let Some(t) = stat.modified_secs {
        h = step(h, t);
    }
    format!("{:x}", h)
}

#[test]
fn identity_matches_documented_hash() {
    let stat = FileStat { exists: true, size: Some(4096), modified_secs: Some(1700000000) };
    let id = generate_id("/data/msg/Msg.db", "x'aabb'", &stat);
    assert_eq!(id, expected_id("/data/msg/Msg.db", "x'aabb'", &stat));
    let id2 = generate_id("/data/msg/Msg.db", "x'aabb'", &ABSENT);
    assert_eq!(id2, expected_id("/data/msg/Msg.db", "x'aabb'", &ABSENT));
}

#[test]
fn identity_is_deterministic_and_stat_sensitive() {
    let stat = FileStat { exists: true, size: Some(10), modified_secs: Some(20) };
    let a = generate_id("/p/q.db", "k", &stat);
    let b = generate_id("/p/q.db", "k", &stat);
    assert_eq!(a, b);
    let other = FileStat { exists: true, size: Some(11), modified_secs: Some(20) };
    assert_eq!(
        generate_id("/p/q.db", "k", &other),
        expected_id("/p/q.db", "k", &other)
    );
}

#[test]
fn descriptor_fields_are_derived() {
    let stat = FileStat { exists: true, size: Some(123), modified_secs: Some(456) };
    let info = create_database_info("/data/msg/Msg.db", "x'aabb'", &stat);
    assert_eq!(info.path, "/data/msg/Msg.db");
    assert_eq!(info.key, "x'aabb'");
    assert_eq!(info.cipher_compatibility, 3);
    assert_eq!(info.db_type, "msg");
    assert_eq!(info.filename, "Msg.db");
    assert_eq!(info.size, Some(123));
    assert!(info.accessible);
    assert_eq!(info.last_modified, Some("456".to_string()));
    assert_eq!(info.id, expected_id("/data/msg/Msg.db", "x'aabb'", &stat));
}

#[test]
fn inaccessible_descriptor_has_absent_metadata() {
    let info = create_database_info("/gone/away.db", "k", &ABSENT);
    assert!(!info.accessible);
    assert_eq!(info.size, None);
    assert_eq!(info.last_modified, None);
    assert_eq!(info.db_type, "gone");
    assert_eq!(info.filename, "away.db");
}
