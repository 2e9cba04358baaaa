//! The transfer boundary, from the core's side: the integrity rule that a
//! received file is discarded unless its recomputed hash equals the hash
//! advertised for it, a verified in-memory model of the byte store behind
//! `push` and `fetch`, and the error taxonomy of the whole system.

use vstd::prelude::*;
use crate::assoc::{
    has_key, lemma_lookup_absent, lemma_lookup_at_index, lemma_lookup_upsert_same,
    lemma_upsert_absent_is_push, lemma_upsert_found_is_update, lemma_upsert_preserves_unique,
    lookup, unique_keys, upsert,
};
use crate::hashing::{sha256_hex, sha256_hex_of};
use crate::inventory::Inventory;
use crate::text::str_eq;

verus! {

/// Every failure the system distinguishes.
#[derive(Debug, Clone, Copy, PartialEq, Eq, Structural)]
pub enum SyncError {
    /// A file could not be read or written: skipped and logged during a
    /// scan, surfaced during a transfer.
    IoError,
    /// A received file's recomputed hash differed from the advertised one:
    /// the artifact is discarded and never installed.
    HashMismatch,
    /// A session's transport dropped; the session is removed, the peer
    /// reconnects.
    ConnectionLost,
    /// A session stayed silent past the timeout; handled like a lost
    /// connection.
    HeartbeatTimeout,
    /// An interactive conflict got no answer; the file is skipped, never
    /// overwritten.
    ConflictUnresolved,
    /// A slow consumer had events dropped; logged, the session stays.
    LaggedDelivery,
}

impl SyncError {
    /// A short description for logs.
    pub fn describe(&self) -> (r: String)
        ensures
            r@ == match *self {
                SyncError::IoError => "file unreadable or unwritable"@,
                SyncError::HashMismatch => "content hash mismatch after transfer"@,
                SyncError::ConnectionLost => "session transport dropped"@,
                SyncError::HeartbeatTimeout => "session heartbeat timed out"@,
                SyncError::ConflictUnresolved => "conflict left unresolved, skipping"@,
                SyncError::LaggedDelivery => "slow consumer dropped events"@,
            },
    {
        match *self {
            SyncError::IoError => String::from_str("file unreadable or unwritable"),
            SyncError::HashMismatch => String::from_str("content hash mismatch after transfer"),
            SyncError::ConnectionLost => String::from_str("session transport dropped"),
            SyncError::HeartbeatTimeout => String::from_str("session heartbeat timed out"),
            SyncError::ConflictUnresolved => String::from_str("conflict left unresolved, skipping"),
            SyncError::LaggedDelivery => String::from_str("slow consumer dropped events"),
        }
    }
}

/// The integrity check run on every received file: the bytes count only if
/// their recomputed hash equals the advertised one.
pub fn verify_received(expected_sha256: &str, bytes: &[u8]) -> (r: bool)
    ensures
        r == (sha256_hex_of(bytes@) == expected_sha256@),
{
    let actual = sha256_hex(bytes);
    str_eq(actual.as_str(), expected_sha256)
}

/// Applies one verified download to the local inventory: if the received
/// bytes hash to the advertised value, the local binding is updated to it;
/// otherwise the artifact is rejected and the inventory left untouched.
/// Succeeds exactly when the hash matches.
pub fn apply_verified_download(
    local: &mut Inventory,
    name: String,
    advertised_sha256: String,
    bytes: &[u8],
) -> (r: Result<(), SyncError>)
    ensures
        match r {
            Ok(()) => sha256_hex_of(bytes@) == advertised_sha256@ && final(local)@ == upsert(
                old(local)@,
                name@,
                advertised_sha256@,
            ) && (old(local).wf() ==> final(local).wf()),
            Err(e) => e == SyncError::HashMismatch && sha256_hex_of(bytes@) != advertised_sha256@
                && final(local)@ == old(local)@,
        },
{
    if verify_received(advertised_sha256.as_str(), bytes) {
        local.insert(name, advertised_sha256);
        Ok(())
    } else {
        Err(SyncError::HashMismatch)
    }
}

/// A download that passed the integrity check converges: the local side
/// then records for that name exactly the hash the remote side advertises.
pub proof fn lemma_verified_download_converges(
    l: Seq<(Seq<char>, Seq<char>)>,
    r: Seq<(Seq<char>, Seq<char>)>,
    name: Seq<char>,
    advertised: Seq<char>,
)
    requires
        lookup(r, name) == Some(advertised),
    ensures
        lookup(upsert(l, name, advertised), name) == lookup(r, name),
{
    lemma_lookup_upsert_same(l, name, advertised);
}

/// One stored file of the in-memory transfer store.
pub struct StoredFont {
    pub name: String,
    pub bytes: Vec<u8>,
    pub sha256: String,
}

impl View for StoredFont {
    type V = (Seq<char>, (Seq<u8>, Seq<char>));

    open spec fn view(&self) -> (Seq<char>, (Seq<u8>, Seq<char>)) {
        (self.name@, (self.bytes@, self.sha256@))
    }
}

/// The reference model of the transfer boundary: a name-keyed byte store
/// whose `push` returns the content hash it will afterwards advertise, and
/// whose `fetch` returns exactly the pushed bytes.
pub struct TransferStore {
    files: Vec<StoredFont>,
}

impl View for TransferStore {
    type V = Seq<(Seq<char>, (Seq<u8>, Seq<char>))>;

    closed spec fn view(&self) -> Seq<(Seq<char>, (Seq<u8>, Seq<char>))> {
        self.files@.map_values(|f: StoredFont| f@)
    }
}

impl TransferStore {
    /// Well-formed: one file per name, and every advertised hash is the
    /// hash of the stored bytes.
    pub open spec fn wf(&self) -> bool {
        &&& unique_keys(self@)
        &&& forall|i: int|
            0 <= i < self@.len() ==> (#[trigger] self@[i]).1.1 == sha256_hex_of(self@[i].1.0)
    }

    pub fn new() -> (r: TransferStore)
        ensures
            r@ == Seq::<(Seq<char>, (Seq<u8>, Seq<char>))>::empty(),
            r.wf(),
    {
        let r = TransferStore { files: Vec::new() };
        proof {
            assert(r@ =~= Seq::<(Seq<char>, (Seq<u8>, Seq<char>))>::empty());
        }
        r
    }

    pub fn len(&self) -> (n: usize)
        ensures
            n == self@.len(),
    {
        self.files.len()
    }

    /// The index at which `name` stands, if it does.
    fn find(&self, name: &str) -> (r: Option<usize>)
        ensures
            match r {
                Some(j) => j < self@.len() && self@[j as int].0 == name@ && forall|i: int|
                    0 <= i < j ==> (#[trigger] self@[i]).0 != name@,
                None => !has_key(self@, name@),
            },
    {
        let n = self.files.len();
        let mut i: usize = 0;
        while i < n
            invariant
                i <= n,
                n == self@.len(),
                forall|j: int| 0 <= j < i ==> (#[trigger] self@[j]).0 != name@,
            decreases n - i,
        {
            if str_eq(self.files[i].name.as_str(), name) {
                return Some(i);
            }
            i = i + 1;
        }
        proof {
            lemma_lookup_absent(self@, name@);
        }
        None
    }

    /// Stores `bytes` under `name`, replacing any earlier file, and returns
    /// the content hash it will advertise for that name from now on.
    pub fn push(&mut self, name: String, bytes: Vec<u8>) -> (h: String)
        ensures
            h@ == sha256_hex_of(bytes@),
            final(self)@ == upsert(old(self)@, name@, (bytes@, h@)),
            old(self).wf() ==> final(self).wf(),
    {
        let h = sha256_hex(bytes.as_slice());
        let entry = StoredFont { name, bytes, sha256: h.clone() };
        let ghost ev = entry@;
        let found = self.find(entry.name.as_str());
        match found {
            Some(j) => {
                proof {
                    lemma_upsert_found_is_update(self@, ev.0, ev.1, j as int);
                }
                self.files.remove(j);
                self.files.insert(j, entry);
                proof {
                    assert(self@ =~= upsert(old(self)@, ev.0, ev.1));
                }
            },
            None => {
                proof {
                    lemma_upsert_absent_is_push(self@, ev.0, ev.1);
                }
                self.files.push(entry);
                proof {
                    assert(self@ =~= upsert(old(self)@, ev.0, ev.1));
                }
            },
        }
        proof {
            if old(self).wf() {
                lemma_upsert_preserves_unique(old(self)@, ev.0, ev.1);
                lemma_upsert_hashes_ok(old(self)@, ev.0, ev.1);
            }
        }
        h
    }

    /// Returns exactly the bytes stored under `name`, if any.
    pub fn fetch(&self, name: &str) -> (r: Option<&Vec<u8>>)
        ensures
            match r {
                Some(b) => lookup(self@, name@) matches Some(p) && p.0 == b@,
                None => !has_key(self@, name@),
            },
    {
        match self.find(name) {
            Some(j) => {
                proof {
                    lemma_lookup_at_index(self@, j as int);
                }
                Some(&self.files[j].bytes)
            },
            None => None,
        }
    }

    /// The hash advertised for `name`, if any.
    pub fn advertised(&self, name: &str) -> (r: Option<&String>)
        ensures
            match r {
                Some(h) => lookup(self@, name@) matches Some(p) && p.1 == h@,
                None => !has_key(self@, name@),
            },
    {
        match self.find(name) {
            Some(j) => {
                proof {
                    lemma_lookup_at_index(self@, j as int);
                }
                Some(&self.files[j].sha256)
            },
            None => None,
        }
    }
}

/// Upserting a correctly hashed file keeps every advertised hash correct.
proof fn lemma_upsert_hashes_ok(
    s: Seq<(Seq<char>, (Seq<u8>, Seq<char>))>,
    name: Seq<char>,
    payload: (Seq<u8>, Seq<char>),
)
    requires
        payload.1 == sha256_hex_of(payload.0),
        forall|i: int| 0 <= i < s.len() ==> (#[trigger] s[i]).1.1 == sha256_hex_of(s[i].1.0),
    ensures
        forall|i: int|
            0 <= i < upsert(s, name, payload).len() ==> (#[trigger] upsert(s, name, payload)[i]).1.1
                == sha256_hex_of(upsert(s, name, payload)[i].1.0),
    decreases s.len(),
{
    let u = upsert(s, name, payload);
    if s.len() == 0 {
        assert(u =~= seq![(name, payload)]);
    } else if s.first().0 == name {
        assert(u =~= seq![(name, payload)] + s.drop_first());
        assert(forall|i: int| 1 <= i < u.len() ==> u[i] == s[i]);
        assert(u[0] == (name, payload));
    } else {
        assert(forall|i: int|
            0 <= i < s.drop_first().len() ==> (#[trigger] s.drop_first()[i]) == s[i + 1]);
        lemma_upsert_hashes_ok(s.drop_first(), name, payload);
        let ur = upsert(s.drop_first(), name, payload);
        assert(u =~= seq![s.first()] + ur);
        assert(forall|i: int| 1 <= i < u.len() ==> u[i] == ur[i - 1]);
        assert(u[0] == s.first());
        assert(s.first() == s[0]);
    }
}

/// Round trip: pushing bytes under a name and then fetching that name
/// yields bytes whose hash equals the hash `push` advertised.
pub proof fn lemma_push_fetch_round_trip(
    s: Seq<(Seq<char>, (Seq<u8>, Seq<char>))>,
    name: Seq<char>,
    bytes: Seq<u8>,
)
    ensures
        lookup(upsert(s, name, (bytes, sha256_hex_of(bytes))), name) == Some(
            (bytes, sha256_hex_of(bytes)),
        ),
{
    lemma_lookup_upsert_same(s, name, (bytes, sha256_hex_of(bytes)));
}

} // verus!
