use fontsync::hashing::sha256_hex;
use fontsync::inventory::Inventory;
use fontsync::transfer::{apply_verified_download, verify_received, SyncError, TransferStore};

const WRONG: &str = "0000000000000000000000000000000000000000000000000000000000000000";

#[test]
fn push_then_fetch_round_trips_bytes_and_hash() {
    // push(name, bytes) followed by fetch(name) returns bytes whose hash
    // equals the one push advertised.
    let mut store = TransferStore::new();
    let bytes = b"glyph outlines".to_vec();
    let advertised = store.push("r.ttf".to_string(), bytes.clone());
    let fetched = store.fetch("r.ttf").expect("pushed font must be fetchable");
    assert_eq!(fetched, &bytes);
    assert_eq!(sha256_hex(fetched), advertised);
    assert_eq!(store.advertised("r.ttf").unwrap(), &advertised);
    assert!(store.fetch("absent.ttf").is_none());
}

#[test]
fn push_replaces_bytes_under_same_name() {
    let mut store = TransferStore::new();
    store.push("f.ttf".to_string(), b"old".to_vec());
    let h2 = store.push("f.ttf".to_string(), b"new".to_vec());
    assert_eq!(store.len(), 1);
    assert_eq!(store.fetch("f.ttf").unwrap(), &b"new".to_vec());
    assert_eq!(h2, sha256_hex(b"new"));
}

#[test]
fn verify_received_accepts_exactly_the_advertised_hash() {
    let bytes = b"downloaded payload";
    let good = sha256_hex(bytes);
    assert!(verify_received(&good, bytes));
    assert!(!verify_received(WRONG, bytes));
}

#[test]
fn verified_download_converges_local_to_remote() {
    // A Download action, once executed and integrity-checked, leaves
    // local[name] == remote[name].
    let bytes = b"comic glyphs".to_vec();
    let mut remote_store = TransferStore::new();
    let advertised = remote_store.push("Comic.ttf".to_string(), bytes.clone());
    let mut local = Inventory::new();
    let fetched = remote_store.fetch("Comic.ttf").unwrap().clone();
    let r = apply_verified_download(&mut local, "Comic.ttf".to_string(), advertised.clone(), &fetched);
    assert!(r.is_ok());
    assert_eq!(local.get("Comic.ttf").map(|h| h.as_str()), Some(advertised.as_str()));
}

#[test]
fn corrupt_download_is_discarded_with_hash_mismatch() {
    // The recomputed hash differs from the advertised one: the artifact is
    // rejected and the inventory left untouched.
    let mut local = Inventory::new();
    local.insert("X.ttf".to_string(), WRONG.to_string());
    let r = apply_verified_download(
        &mut local,
        "X.ttf".to_string(),
        sha256_hex(b"what was advertised"),
        b"what actually arrived",
    );
    assert_eq!(r, Err(SyncError::HashMismatch));
    assert_eq!(local.get("X.ttf").map(|h| h.as_str()), Some(WRONG));
}

#[test]
fn error_descriptions_name_each_failure() {
    assert_eq!(SyncError::IoError.describe(), "file unreadable or unwritable");
    assert_eq!(SyncError::HashMismatch.describe(), "content hash mismatch after transfer");
    assert_eq!(SyncError::ConnectionLost.describe(), "session transport dropped");
    assert_eq!(SyncError::HeartbeatTimeout.describe(), "session heartbeat timed out");
    assert_eq!(SyncError::ConflictUnresolved.describe(), "conflict left unresolved, skipping");
    assert_eq!(SyncError::LaggedDelivery.describe(), "slow consumer dropped events");
}
