//! The fingerprint store and the change detector built on it: a per-watched-
//! directory cache mapping each font file name to its content fingerprint,
//! and the rule that turns a raw filesystem observation into a semantic
//! `Added` / `Modified` / `Removed` event exactly when content changed.

use vstd::prelude::*;
use crate::assoc::{
    has_key, lemma_lookup_absent, lemma_lookup_at_index, lemma_push_fresh_preserves_unique,
    lemma_remove_absent_is_identity, lemma_remove_found_is_remove, lemma_remove_preserves_unique,
    lemma_upsert_absent_is_push, lemma_upsert_found_is_update, lemma_upsert_preserves_unique,
    lookup, remove_key, unique_keys, upsert,
};
use crate::inventory::Inventory;
use crate::text::str_eq;

verus! {

/// A file's content fingerprint: hash, size, and modification time, the
/// latter as seconds since the Unix epoch.
pub type FontMeta = (Seq<char>, u64, u64);

/// One cached fingerprint: a font file's name and its current content state.
pub struct FontInfo {
    pub name: String,
    pub sha256: String,
    pub size: u64,
    pub modified: u64,
}

impl View for FontInfo {
    type V = (Seq<char>, FontMeta);

    open spec fn view(&self) -> (Seq<char>, FontMeta) {
        (self.name@, (self.sha256@, self.size, self.modified))
    }
}

impl FontInfo {
    /// A field-for-field copy.
    pub fn duplicate(&self) -> (r: FontInfo)
        ensures
            r@ == self@,
    {
        FontInfo {
            name: self.name.clone(),
            sha256: self.sha256.clone(),
            size: self.size,
            modified: self.modified,
        }
    }
}

/// A semantic change event, emitted only when content actually changed.
pub enum FontEvent {
    Added(String, String),
    Modified(String, String),
    Removed(String),
}

/// The spec-level value of a `FontEvent`: name and, where there is one, the
/// new content hash.
pub enum FontEventV {
    Added { name: Seq<char>, sha256: Seq<char> },
    Modified { name: Seq<char>, sha256: Seq<char> },
    Removed { name: Seq<char> },
}

impl View for FontEvent {
    type V = FontEventV;

    open spec fn view(&self) -> FontEventV {
        match self {
            FontEvent::Added(n, h) => FontEventV::Added { name: n@, sha256: h@ },
            FontEvent::Modified(n, h) => FontEventV::Modified { name: n@, sha256: h@ },
            FontEvent::Removed(n) => FontEventV::Removed { name: n@ },
        }
    }
}

pub open spec fn ev_view(ev: Option<FontEvent>) -> Option<FontEventV> {
    match ev {
        Some(e) => Some(e@),
        None => None,
    }
}

/// The re-hash-before-emit rule of the change watcher, as a pure function:
/// a path that is gone is `Removed`; a fingerprint with no prior record is
/// `Added`; a fingerprint whose hash differs from the prior record is
/// `Modified`; an unchanged hash is no event at all.
pub open spec fn semantic_event(
    name: Seq<char>,
    prior: Option<FontMeta>,
    observed: Option<FontMeta>,
) -> Option<FontEventV> {
    match observed {
        None => Some(FontEventV::Removed { name }),
        Some(m) => match prior {
            None => Some(FontEventV::Added { name, sha256: m.0 }),
            Some(p) => if p.0 == m.0 {
                None
            } else {
                Some(FontEventV::Modified { name, sha256: m.0 })
            },
        },
    }
}

pub open spec fn observed_meta(observed: Option<FontInfo>) -> Option<FontMeta> {
    match observed {
        Some(r) => Some((r.sha256@, r.size, r.modified)),
        None => None,
    }
}

/// How one observation changes the cached fingerprints.
pub open spec fn store_after(
    s: Seq<(Seq<char>, FontMeta)>,
    name: Seq<char>,
    observed: Option<FontMeta>,
) -> Seq<(Seq<char>, FontMeta)> {
    match observed {
        None => remove_key(s, name),
        Some(m) => match lookup(s, name) {
            None => s.push((name, m)),
            Some(p) => if p.0 == m.0 {
                s
            } else {
                upsert(s, name, m)
            },
        },
    }
}

/// The cache state after a full rescan handed the given records, later
/// records winning on a repeated name.
pub open spec fn rebuild_spec(rs: Seq<(Seq<char>, FontMeta)>) -> Seq<(Seq<char>, FontMeta)>
    decreases rs.len(),
{
    if rs.len() == 0 {
        Seq::<(Seq<char>, FontMeta)>::empty()
    } else {
        upsert(rebuild_spec(rs.drop_last()), rs.last().0, rs.last().1)
    }
}

/// The name-to-hash snapshot an inventory takes of a store.
pub open spec fn inventory_of(s: Seq<(Seq<char>, FontMeta)>) -> Seq<(Seq<char>, Seq<char>)> {
    s.map_values(|p: (Seq<char>, FontMeta)| (p.0, p.1.0))
}

/// Scan consistency: after a rescan hands the store records with pairwise
/// distinct names, looking any scanned name up returns exactly the
/// fingerprint the scan computed for it — the store never exposes a stale
/// hash.
pub proof fn lemma_rebuild_lookup(rs: Seq<(Seq<char>, FontMeta)>, i: int)
    requires
        unique_keys(rs),
        0 <= i < rs.len(),
    ensures
        lookup(rebuild_spec(rs), rs[i].0) == Some(rs[i].1),
    decreases rs.len(),
{
    let last = rs.last();
    let front = rs.drop_last();
    if i == rs.len() - 1 {
        crate::assoc::lemma_lookup_upsert_same(rebuild_spec(front), last.0, last.1);
    } else {
        assert(rs[i].0 != last.0);
        assert(forall|k: int| 0 <= k < front.len() ==> front[k] == rs[k]);
        lemma_rebuild_lookup(front, i);
        crate::assoc::lemma_lookup_upsert_other(rebuild_spec(front), last.0, last.1, rs[i].0);
    }
}

proof fn lemma_view_of_remove_first(s: Seq<FontInfo>)
    requires
        s.len() > 0,
    ensures
        s.remove(0).map_values(|r: FontInfo| r@) == s.map_values(|r: FontInfo| r@).remove(0),
{
    assert(s.remove(0).map_values(|r: FontInfo| r@) =~= s.map_values(|r: FontInfo| r@).remove(0));
}

/// The per-directory fingerprint cache: each known font file name mapped to
/// the fingerprint of the bytes last seen under it.
pub struct FingerprintStore {
    records: Vec<FontInfo>,
}

impl View for FingerprintStore {
    type V = Seq<(Seq<char>, FontMeta)>;

    closed spec fn view(&self) -> Seq<(Seq<char>, FontMeta)> {
        self.records@.map_values(|r: FontInfo| r@)
    }
}

impl FingerprintStore {
    /// Well-formed: one record per name.
    pub open spec fn wf(&self) -> bool {
        unique_keys(self@)
    }

    pub fn new() -> (r: FingerprintStore)
        ensures
            r@ == Seq::<(Seq<char>, FontMeta)>::empty(),
            r.wf(),
    {
        let r = FingerprintStore { records: Vec::new() };
        proof {
            assert(r@ =~= Seq::<(Seq<char>, FontMeta)>::empty());
        }
        r
    }

    pub fn len(&self) -> (n: usize)
        ensures
            n == self@.len(),
    {
        self.records.len()
    }

    /// A read-only view of one record.
    pub fn record(&self, i: usize) -> (r: &FontInfo)
        requires
            i < self@.len(),
        ensures
            r@ == self@[i as int],
    {
        &self.records[i]
    }

    /// The index at which `name` stands, if it does.
    fn find(&self, name: &str) -> (r: Option<usize>)
        ensures
            match r {
                Some(j) => j < self@.len() && self@[j as int].0 == name@ && forall|i: int|
                    0 <= i < j ==> (#[trigger] self@[i]).0 != name@,
                None => !has_key(self@, name@),
            },
    {
        let n = self.records.len();
        let mut i: usize = 0;
        while i < n
            invariant
                i <= n,
                n == self@.len(),
                forall|j: int| 0 <= j < i ==> (#[trigger] self@[j]).0 != name@,
            decreases n - i,
        {
            if str_eq(self.records[i].name.as_str(), name) {
                return Some(i);
            }
            i = i + 1;
        }
        proof {
            lemma_lookup_absent(self@, name@);
        }
        None
    }

    /// A pure read of the fingerprint cached for `name`.
    pub fn lookup(&self, name: &str) -> (r: Option<&FontInfo>)
        ensures
            match r {
                Some(rec) => lookup(self@, name@) == Some(rec@.1) && rec.name@ == name@,
                None => lookup(self@, name@) is None,
            },
    {
        match self.find(name) {
            Some(j) => {
                proof {
                    lemma_lookup_at_index(self@, j as int);
                }
                Some(&self.records[j])
            },
            None => None,
        }
    }

    /// Caches `rec` under its name, replacing any earlier record in place.
    fn insert_record(&mut self, rec: FontInfo)
        ensures
            final(self)@ == upsert(old(self)@, rec.name@, rec@.1),
            old(self).wf() ==> final(self).wf(),
    {
        let found = self.find(rec.name.as_str());
        match found {
            Some(j) => {
                proof {
                    lemma_upsert_found_is_update(self@, rec.name@, rec@.1, j as int);
                }
                self.records.remove(j);
                self.records.insert(j, rec);
                proof {
                    assert(self@ =~= upsert(old(self)@, rec.name@, rec@.1));
                }
            },
            None => {
                proof {
                    lemma_upsert_absent_is_push(self@, rec.name@, rec@.1);
                }
                self.records.push(rec);
                proof {
                    assert(self@ =~= upsert(old(self)@, rec.name@, rec@.1));
                }
            },
        }
        proof {
            if old(self).wf() {
                lemma_upsert_preserves_unique(old(self)@, rec.name@, rec@.1);
            }
        }
    }

    /// Replaces the whole cache with the outcome of a fresh scan, atomically
    /// from the point of view of readers: no prior record survives.
    pub fn rebuild(&mut self, records: Vec<FontInfo>)
        ensures
            final(self)@ == rebuild_spec(records@.map_values(|r: FontInfo| r@)),
            final(self).wf(),
    {
        let ghost orig = records@.map_values(|r: FontInfo| r@);
        self.records = Vec::new();
        proof {
            assert(self@ =~= Seq::<(Seq<char>, FontMeta)>::empty());
            assert(orig.take(0) =~= Seq::<(Seq<char>, FontMeta)>::empty());
            assert(rebuild_spec(orig.take(0)) =~= Seq::<(Seq<char>, FontMeta)>::empty());
        }
        let mut records = records;
        let n = records.len();
        let mut i: usize = 0;
        while i < n
            invariant
                i <= n,
                n == orig.len(),
                records@.len() + i == n,
                records@.map_values(|r: FontInfo| r@) == orig.skip(i as int),
                self@ == rebuild_spec(orig.take(i as int)),
                self.wf(),
            decreases n - i,
    {
            let ghost pre = records@;
            let rec = records.remove(0);
            proof {
                assert(pre.map_values(|r: FontInfo| r@)[0] == pre[0]@);
                assert(orig.skip(i as int)[0] == orig[i as int]);
                assert(rec@ == orig[i as int]);
                assert(records@ == pre.remove(0));
                lemma_view_of_remove_first(pre);
                assert(orig.skip(i as int).remove(0) =~= orig.skip(i + 1));
                assert(records@.map_values(|r: FontInfo| r@) == orig.skip(i + 1));
            }
            self.insert_record(rec);
            proof {
                assert(orig.take(i + 1).drop_last() =~= orig.take(i as int));
                assert(orig.take(i + 1).last() == orig[i as int]);
                assert(self@ == rebuild_spec(orig.take(i + 1)));
            }
            i = i + 1;
        }
        proof {
            assert(orig.take(n as int) == orig);
        }
    }

    /// Applies one observation of `name` — its current fingerprint, or its
    /// absence — to the cache, and returns the semantic event it amounts
    /// to.  No event is returned when the content is unchanged.
    pub fn apply_observation(&mut self, name: &str, observed: Option<FontInfo>) -> (ev: Option<
        FontEvent,
    >)
        requires
            old(self).wf(),
            match observed {
                Some(ref rec) => rec.name@ == name@,
                None => true,
            },
        ensures
            final(self).wf(),
            ev_view(ev) == semantic_event(
                name@,
                lookup(old(self)@, name@),
                observed_meta(observed),
            ),
            final(self)@ == store_after(old(self)@, name@, observed_meta(observed)),
    {
        match observed {
            None => {
                match self.find(name) {
                    Some(j) => {
                        proof {
                            lemma_remove_found_is_remove(self@, name@, j as int);
                            lemma_remove_preserves_unique(self@, j as int);
                        }
                        self.records.remove(j);
                        proof {
                            assert(self@ =~= remove_key(old(self)@, name@));
                        }
                    },
                    None => {
                        proof {
                            lemma_remove_absent_is_identity(self@, name@);
                        }
                    },
                }
                Some(FontEvent::Removed(name.to_owned()))
            },
            Some(rec) => {
                let ghost recv = rec@;
                match self.find(name) {
                    None => {
                        let hash = rec.sha256.clone();
                        proof {
                            lemma_push_fresh_preserves_unique(self@, recv);
                        }
                        self.records.push(rec);
                        proof {
                            assert(self@ =~= old(self)@.push(recv));
                        }
                        Some(FontEvent::Added(name.to_owned(), hash))
                    },
                    Some(j) => {
                        proof {
                            lemma_lookup_at_index(self@, j as int);
                            assert(self@[j as int] == self.records@[j as int]@);
                        }
                        if str_eq(self.records[j].sha256.as_str(), rec.sha256.as_str()) {
                            None
                        } else {
                            let hash = rec.sha256.clone();
                            proof {
                                lemma_upsert_found_is_update(self@, name@, recv.1, j as int);
                                lemma_upsert_preserves_unique(old(self)@, name@, recv.1);
                            }
                            self.records.remove(j);
                            self.records.insert(j, rec);
                            proof {
                                assert(self@ =~= upsert(old(self)@, name@, recv.1));
                            }
                            Some(FontEvent::Modified(name.to_owned(), hash))
                        }
                    },
                }
            },
        }
    }

    /// The name-to-hash snapshot reconciliation runs on: a consistent copy,
    /// taken while no writer runs, never a live iteration.
    pub fn inventory(&self) -> (r: Inventory)
        requires
            self.wf(),
        ensures
            r@ == inventory_of(self@),
            r.wf(),
    {
        let mut inv = Inventory::new();
        let n = self.records.len();
        let mut i: usize = 0;
        proof {
            assert(inventory_of(self@.take(0)) =~= Seq::<(Seq<char>, Seq<char>)>::empty());
        }
        while i < n
            invariant
                i <= n,
                n == self@.len(),
                self.wf(),
                inv@ == inventory_of(self@.take(i as int)),
                inv.wf(),
            decreases n - i,
        {
            let rec = &self.records[i];
            proof {
                let prefix = inventory_of(self@.take(i as int));
                assert(forall|k: int|
                    0 <= k < prefix.len() ==> (#[trigger] prefix[k]).0 == self@.take(i as int)[k].0);
                assert(forall|k: int| 0 <= k < i ==> (#[trigger] prefix[k]).0 != self@[i as int].0);
                lemma_lookup_absent(prefix, self@[i as int].0);
                lemma_upsert_absent_is_push(prefix, self@[i as int].0, self@[i as int].1.0);
            }
            inv.insert(rec.name.clone(), rec.sha256.clone());
            proof {
                assert(inv@ =~= inventory_of(self@.take(i + 1)));
            }
            i = i + 1;
        }
        proof {
            assert(self@.take(n as int) == self@);
        }
        inv
    }
}

} // verus!
