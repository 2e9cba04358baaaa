use fontsync::hashing::sha256_hex;
use fontsync::store::{FingerprintStore, FontEvent, FontInfo};

fn record(name: &str, bytes: &[u8], modified: u64) -> FontInfo {
    FontInfo {
        name: name.to_string(),
        sha256: sha256_hex(bytes),
        size: bytes.len() as u64,
        modified,
    }
}

#[test]
fn scan_consistency_every_entry_matches_recomputed_hash() {
    // After a rebuild from scanned records, each cached hash equals the
    // hash recomputed independently from the same bytes.
    let files: &[(&str, &[u8])] = &[
        ("a.ttf", b"alpha-bytes"),
        ("b.otf", b"beta-bytes"),
        ("c.woff", b"gamma-bytes"),
    ];
    let mut store = FingerprintStore::new();
    let records: Vec<FontInfo> =
        files.iter().map(|(n, b)| record(n, b, 1)).collect();
    store.rebuild(records);
    assert_eq!(store.len(), 3);
    for (name, bytes) in files {
        let rec = store.lookup(name).expect("scanned font must be cached");
        assert_eq!(rec.sha256, sha256_hex(bytes));
        assert_eq!(rec.size, bytes.len() as u64);
    }
}

#[test]
fn rebuild_replaces_prior_state_atomically() {
    let mut store = FingerprintStore::new();
    store.rebuild(vec![record("old.ttf", b"old", 1)]);
    store.rebuild(vec![record("new.ttf", b"new", 2)]);
    assert_eq!(store.len(), 1);
    assert!(store.lookup("old.ttf").is_none());
    assert!(store.lookup("new.ttf").is_some());
}

#[test]
fn observation_of_new_font_emits_added() {
    let mut store = FingerprintStore::new();
    let rec = record("fresh.ttf", b"fresh", 5);
    let hash = rec.sha256.clone();
    let ev = store.apply_observation("fresh.ttf", Some(rec));
    assert!(matches!(ev, Some(FontEvent::Added(n, h)) if n == "fresh.ttf" && h == hash));
    assert!(store.lookup("fresh.ttf").is_some());
}

#[test]
fn observation_with_changed_hash_emits_modified() {
    let mut store = FingerprintStore::new();
    store.rebuild(vec![record("f.ttf", b"version-one", 1)]);
    let rec = record("f.ttf", b"version-two", 2);
    let hash = rec.sha256.clone();
    let ev = store.apply_observation("f.ttf", Some(rec));
    assert!(matches!(ev, Some(FontEvent::Modified(n, h)) if n == "f.ttf" && h == hash));
    assert_eq!(store.lookup("f.ttf").unwrap().sha256, hash);
}

#[test]
fn observation_with_unchanged_hash_emits_nothing() {
    // A touch without a content change produces no event: the raw
    // notification is de-duplicated by the re-hash rule.
    let mut store = FingerprintStore::new();
    store.rebuild(vec![record("same.ttf", b"identical", 1)]);
    let rec = record("same.ttf", b"identical", 99);
    let ev = store.apply_observation("same.ttf", Some(rec));
    assert!(ev.is_none());
}

#[test]
fn observation_of_missing_path_emits_removed() {
    let mut store = FingerprintStore::new();
    store.rebuild(vec![record("gone.ttf", b"bytes", 1)]);
    let ev = store.apply_observation("gone.ttf", None);
    assert!(matches!(ev, Some(FontEvent::Removed(n)) if n == "gone.ttf"));
    assert!(store.lookup("gone.ttf").is_none());
    assert_eq!(store.len(), 0);
}

#[test]
fn store_snapshot_becomes_inventory() {
    let mut store = FingerprintStore::new();
    store.rebuild(vec![record("x.ttf", b"xx", 1), record("y.ttf", b"yy", 1)]);
    let inv = store.inventory();
    assert_eq!(inv.len(), 2);
    assert_eq!(inv.get("x.ttf").map(|h| h.as_str()), Some(sha256_hex(b"xx").as_str()));
    assert_eq!(inv.get("y.ttf").map(|h| h.as_str()), Some(sha256_hex(b"yy").as_str()));
}
