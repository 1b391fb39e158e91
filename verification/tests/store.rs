use hyperdb::store::{HyperStore, SnapshotError};

const DEFAULT_FILE: &str = "store.hyper";

#[test]
fn has_file() {
    let hs = HyperStore::new(DEFAULT_FILE);
    assert_eq!(hs.get_file(), DEFAULT_FILE);
}

#[test]
fn saves_to_file() {
    let mut hs = HyperStore::new("store1.hyper");

    hs.set("hyper", "db");
    hs.set("super", "fast");
    let doc = hs.snapshot();

    let hs = HyperStore::from_snapshot("store1.hyper", Some(&doc)).unwrap();
    assert_eq!(hs.get("hyper"), "db");
}

#[test]
fn reloads_from_file() {
    let mut hs = HyperStore::new("store2.hyper");

    hs.set("hyper", "db");
    hs.set("super", "fast");
    let saved = hs.snapshot();

    hs.set("hyper", "wrong");
    hs.reload(Some(&saved)).unwrap();

    assert_eq!(hs.get("hyper"), "db");
}

#[test]
fn start_from_empty() {
    let hs = HyperStore::new(DEFAULT_FILE);
    assert_eq!(hs.is_empty(), true);
}

#[test]
fn start_len_zero() {
    let hs = HyperStore::new(DEFAULT_FILE);
    assert_eq!(hs.len(), 0);
}

#[test]
fn key_not_present() {
    let hs = HyperStore::new(DEFAULT_FILE);
    assert_eq!(hs.has("hyper"), false);
}

#[test]
fn key_is_stored() {
    let mut hs = HyperStore::new(DEFAULT_FILE);
    hs.set("hyper", "db");
    assert_eq!(hs.has("hyper"), true);
}

#[test]
fn key_is_deleted() {
    let mut hs = HyperStore::new(DEFAULT_FILE);
    hs.set("hyper", "db");
    hs.delete("hyper");
    assert_eq!(hs.has("hyper"), false);
}

#[test]
fn value_is_stored() {
    let mut hs = HyperStore::new(DEFAULT_FILE);
    hs.set("hyper", "db");
    assert_eq!(hs.get("hyper"), "db");
}

#[test]
fn not_empty() {
    let mut hs = HyperStore::new(DEFAULT_FILE);
    hs.set("hyper", "db");
    assert_ne!(hs.is_empty(), true);
}

#[test]
fn len_not_zero() {
    let mut hs = HyperStore::new(DEFAULT_FILE);
    hs.set("hyper", "db");
    assert_ne!(hs.len(), 0);
}

#[test]
fn it_clears() {
    let mut hs = HyperStore::new(DEFAULT_FILE);
    hs.set("hyper", "db");
    hs.clear();
    assert_eq!(hs.is_empty(), true);
}

#[test]
fn get_missing_is_empty_string() {
    let hs = HyperStore::new(DEFAULT_FILE);
    assert_eq!(hs.get("missing"), "");
}

#[test]
fn set_overwrites() {
    let mut hs = HyperStore::new(DEFAULT_FILE);
    hs.set("hyper", "db");
    hs.set("hyper", "fast");
    assert_eq!(hs.get("hyper"), "fast");
    assert_eq!(hs.len(), 1);
}

#[test]
fn delete_missing_is_noop() {
    let mut hs = HyperStore::new(DEFAULT_FILE);
    hs.set("hyper", "db");
    hs.delete("missing");
    assert_eq!(hs.len(), 1);
    assert_eq!(hs.has("missing"), false);
}

#[test]
fn clear_is_idempotent() {
    let mut hs = HyperStore::new(DEFAULT_FILE);
    hs.set("hyper", "db");
    hs.clear();
    hs.clear();
    assert_eq!(hs.is_empty(), true);
    assert_eq!(hs.len(), 0);
}

#[test]
fn len_counts_keys() {
    let mut hs = HyperStore::new(DEFAULT_FILE);
    hs.set("a", "1");
    hs.set("b", "2");
    assert_eq!(hs.len(), 2);
}

#[test]
fn snapshot_has_expected_form() {
    let mut hs = HyperStore::new(DEFAULT_FILE);
    hs.set("hyper", "db");
    assert_eq!(hs.snapshot(), "{\"hyper\":\"db\"}");
}

#[test]
fn snapshot_of_empty_store() {
    let hs = HyperStore::new(DEFAULT_FILE);
    assert_eq!(hs.snapshot(), "{}");
}

#[test]
fn snapshot_round_trip_keeps_every_pair() {
    let mut hs = HyperStore::new(DEFAULT_FILE);
    hs.set("hyper", "db");
    hs.set("super", "fast");
    hs.set("empty", "");
    let doc = hs.snapshot();

    let back = HyperStore::from_snapshot(DEFAULT_FILE, Some(&doc)).unwrap();
    assert_eq!(back.len(), 3);
    assert_eq!(back.get("hyper"), "db");
    assert_eq!(back.get("super"), "fast");
    assert_eq!(back.get("empty"), "");
    assert!(back.has("empty"));
}

#[test]
fn rebuilt_store_matches() {
    let mut hs = HyperStore::new(DEFAULT_FILE);
    hs.set("hyper", "db");
    hs.set("super", "fast");
    let back = hs.rebuilt_from_snapshot();
    assert_eq!(back.len(), 2);
    assert_eq!(back.get("hyper"), "db");
    assert_eq!(back.get("super"), "fast");
    assert_eq!(back.get_file(), DEFAULT_FILE);
}

#[test]
fn from_snapshot_cold_start_is_empty() {
    let hs = HyperStore::from_snapshot(DEFAULT_FILE, None).unwrap();
    assert!(hs.is_empty());
    assert_eq!(hs.get_file(), DEFAULT_FILE);
}

#[test]
fn from_snapshot_parses_external_document() {
    let hs = HyperStore::from_snapshot(DEFAULT_FILE, Some("{\"a\": \"b\", \"c\": \"d\"}")).unwrap();
    assert_eq!(hs.len(), 2);
    assert_eq!(hs.get("a"), "b");
    assert_eq!(hs.get("c"), "d");
}

#[test]
fn from_snapshot_refuses_malformed_document() {
    let r = HyperStore::from_snapshot(DEFAULT_FILE, Some("not a snapshot"));
    assert_eq!(r.unwrap_err(), SnapshotError::Malformed);
}

#[test]
fn reload_without_file_empties() {
    let mut hs = HyperStore::new(DEFAULT_FILE);
    hs.set("hyper", "db");
    hs.reload(None).unwrap();
    assert!(hs.is_empty());
}

#[test]
fn reload_refuses_malformed_and_keeps_state() {
    let mut hs = HyperStore::new(DEFAULT_FILE);
    hs.set("hyper", "db");
    let r = hs.reload(Some("{broken"));
    assert_eq!(r.unwrap_err(), SnapshotError::Malformed);
    assert_eq!(hs.get("hyper"), "db");
}

#[test]
fn reset_empties_store_and_file() {
    let mut hs = HyperStore::new(DEFAULT_FILE);
    hs.set("hyper", "db");
    let doc = hs.reset();

    assert!(hs.is_empty());
    let fresh = HyperStore::from_snapshot(DEFAULT_FILE, Some(&doc)).unwrap();
    assert!(fresh.is_empty());
}

#[test]
fn reset_rebuilt_is_empty() {
    let mut hs = HyperStore::new(DEFAULT_FILE);
    hs.set("hyper", "db");
    let fresh = hs.reset_rebuilt();
    assert!(hs.is_empty());
    assert!(fresh.is_empty());
    assert_eq!(fresh.get_file(), DEFAULT_FILE);
}

#[test]
fn set_file_changes_path_only() {
    let mut hs = HyperStore::new(DEFAULT_FILE);
    hs.set("hyper", "db");
    hs.set_file("other.hyper");
    assert_eq!(hs.get_file(), "other.hyper");
    assert_eq!(hs.get("hyper"), "db");
}

#[test]
fn all_lists_entries() {
    let mut hs = HyperStore::new(DEFAULT_FILE);
    hs.set("hyper", "db");
    assert_eq!(hs.all(), "hyper: db\n");
}

#[test]
fn survives_restart() {
    let mut hs = HyperStore::new(DEFAULT_FILE);
    assert!(hs.is_empty());
    hs.set("hyper", "db");
    assert_eq!(hs.get("hyper"), "db");
    let doc = hs.snapshot();

    let hs = HyperStore::from_snapshot(DEFAULT_FILE, Some(&doc)).unwrap();
    assert_eq!(hs.get("hyper"), "db");
}

#[test]
fn version_banner() {
    assert_eq!(hyperdb::version(), "[HyperDB v1.0.1 (https://afaan.dev)]");
}
