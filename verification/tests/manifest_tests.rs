use wechat_db_manager::manifest::parse_keys_content;

#[test]
fn parses_pairs_in_order() {
    let text = "sqlcipher db path: '/data/msg/Msg.db'\n\
                PRAGMA key = \"x'aabb'\";\n\
                sqlcipher db path: '/data/contact/Contact.db'\n\
                PRAGMA key = \"x'ccdd'\";\n";
    let entries = parse_keys_content(text);
    assert_eq!(entries.len(), 2);
    assert_eq!(entries[0].path, "/data/msg/Msg.db");
    assert_eq!(entries[0].key, "x'aabb'");
    assert_eq!(entries[1].path, "/data/contact/Contact.db");
    assert_eq!(entries[1].key, "x'ccdd'");
}

#[test]
fn duplicate_path_keeps_first_key() {
    let text = "sqlcipher db path: '/data/a.db'\n\
                PRAGMA key = \"first\"\n\
                sqlcipher db path: '/data/a.db'\n\
                PRAGMA key = \"second\"\n";
    let entries = parse_keys_content(text);
    assert_eq!(entries.len(), 1);
    assert_eq!(entries[0].path, "/data/a.db");
    assert_eq!(entries[0].key, "first");
}

#[test]
fn key_without_path_is_ignored() {
    let text = "PRAGMA key = \"orphan\"\n\
                sqlcipher db path: '/data/b.db'\n\
                PRAGMA key = \"kept\"\n";
    let entries = parse_keys_content(text);
    assert_eq!(entries.len(), 1);
    assert_eq!(entries[0].path, "/data/b.db");
    assert_eq!(entries[0].key, "kept");
}

#[test]
fn consecutive_paths_keep_only_last() {
    let text = "sqlcipher db path: '/data/lost.db'\n\
                sqlcipher db path: '/data/won.db'\n\
                PRAGMA key = \"k\"\n";
    let entries = parse_keys_content(text);
    assert_eq!(entries.len(), 1);
    assert_eq!(entries[0].path, "/data/won.db");
    assert_eq!(entries[0].key, "k");
}

#[test]
fn trailing_path_without_key_is_dropped() {
    let text = "sqlcipher db path: '/data/c.db'\n\
                PRAGMA key = \"k\"\n\
                sqlcipher db path: '/data/dangling.db'\n";
    let entries = parse_keys_content(text);
    assert_eq!(entries.len(), 1);
    assert_eq!(entries[0].path, "/data/c.db");
}

#[test]
fn unrelated_and_malformed_lines_are_skipped() {
    let text = "-- log header\n\
                sqlcipher db path: missing quotes\n\
                sqlcipher db path: '\n\
                sqlcipher db path: '/data/d.db'\n\
                PRAGMA key = no quotes here\n\
                PRAGMA key = \"real\"\n";
    let entries = parse_keys_content(text);
    assert_eq!(entries.len(), 1);
    assert_eq!(entries[0].path, "/data/d.db");
    assert_eq!(entries[0].key, "real");
}

#[test]
fn empty_manifest_yields_nothing() {
    assert_eq!(parse_keys_content("").len(), 0);
    assert_eq!(parse_keys_content("\n\n\n").len(), 0);
}

#[test]
fn carriage_returns_are_trimmed() {
    let text = "sqlcipher db path: '/data/e.db'\r\nPRAGMA key = \"win\"\r\n";
    let entries = parse_keys_content(text);
    assert_eq!(entries.len(), 1);
    assert_eq!(entries[0].path, "/data/e.db");
    assert_eq!(entries[0].key, "win");
}

#[test]
fn empty_quoted_path_disables_pending() {
    let text = "sqlcipher db path: '/data/f.db'\n\
                sqlcipher db path: ''\n\
                PRAGMA key = \"k\"\n";
    let entries = parse_keys_content(text);
    assert_eq!(entries.len(), 0);
}
