//! Inventories: name-to-content-hash snapshots.  An inventory is the unit
//! exchanged during reconciliation; it is derived from the fingerprint store
//! on the local side and fetched from a peer on the remote side.

use vstd::prelude::*;
use crate::assoc::{
    has_key, lemma_lookup_absent, lemma_lookup_at_index, lemma_upsert_absent_is_push,
    lemma_upsert_found_is_update, lemma_upsert_preserves_unique, lookup, unique_keys, upsert,
};
use crate::text::str_eq;

verus! {

/// One row of an inventory: a file name and the hash of its content.
pub struct InventoryEntry {
    pub name: String,
    pub hash: String,
}

impl View for InventoryEntry {
    type V = (Seq<char>, Seq<char>);

    open spec fn view(&self) -> (Seq<char>, Seq<char>) {
        (self.name@, self.hash@)
    }
}

/// A name-to-content-hash snapshot with pairwise distinct names.
pub struct Inventory {
    entries: Vec<InventoryEntry>,
}

impl View for Inventory {
    type V = Seq<(Seq<char>, Seq<char>)>;

    closed spec fn view(&self) -> Seq<(Seq<char>, Seq<char>)> {
        self.entries@.map_values(|e: InventoryEntry| e@)
    }
}

impl Inventory {
    /// Well-formed: no name occurs twice.
    pub open spec fn wf(&self) -> bool {
        unique_keys(self@)
    }

    pub fn new() -> (r: Inventory)
        ensures
            r@ == Seq::<(Seq<char>, Seq<char>)>::empty(),
            r.wf(),
    {
        let r = Inventory { entries: Vec::new() };
        proof {
            assert(r@ =~= Seq::<(Seq<char>, Seq<char>)>::empty());
        }
        r
    }

    pub fn len(&self) -> (n: usize)
        ensures
            n == self@.len(),
    {
        self.entries.len()
    }

    /// A read-only view of one entry.
    pub fn entry(&self, i: usize) -> (e: &InventoryEntry)
        requires
            i < self@.len(),
        ensures
            e@ == self@[i as int],
    {
        &self.entries[i]
    }

    /// The index at which `name` stands, if it does.
    fn find(&self, name: &str) -> (r: Option<usize>)
        ensures
            match r {
                Some(j) => j < self@.len() && self@[j as int].0 == name@ && forall|i: int|
                    0 <= i < j ==> (#[trigger] self@[i]).0 != name@,
                None => !has_key(self@, name@),
            },
    {
        let n = self.entries.len();
        let mut i: usize = 0;
        while i < n
            invariant
                i <= n,
                n == self@.len(),
                forall|j: int| 0 <= j < i ==> (#[trigger] self@[j]).0 != name@,
            decreases n - i,
        {
            if str_eq(self.entries[i].name.as_str(), name) {
                return Some(i);
            }
            i = i + 1;
        }
        proof {
            lemma_lookup_absent(self@, name@);
        }
        None
    }

    /// The hash recorded under `name`, if any.
    pub fn get(&self, name: &str) -> (r: Option<&String>)
        ensures
            match r {
                Some(h) => lookup(self@, name@) == Some(h@),
                None => lookup(self@, name@) is None,
            },
    {
        match self.find(name) {
            Some(j) => {
                proof {
                    lemma_lookup_at_index(self@, j as int);
                }
                Some(&self.entries[j].hash)
            },
            None => None,
        }
    }

    pub fn contains(&self, name: &str) -> (r: bool)
        ensures
            r == has_key(self@, name@),
    {
        self.get(name).is_some()
    }

    /// Records `hash` under `name`, replacing any earlier binding in place.
    pub fn insert(&mut self, name: String, hash: String)
        ensures
            final(self)@ == upsert(old(self)@, name@, hash@),
            old(self).wf() ==> final(self).wf(),
    {
        let found = self.find(name.as_str());
        match found {
            Some(j) => {
                proof {
                    lemma_upsert_found_is_update(self@, name@, hash@, j as int);
                }
                self.entries.remove(j);
                self.entries.insert(j, InventoryEntry { name, hash });
                proof {
                    assert(self@ =~= upsert(old(self)@, name@, hash@));
                }
            },
            None => {
                proof {
                    lemma_upsert_absent_is_push(self@, name@, hash@);
                }
                self.entries.push(InventoryEntry { name, hash });
                proof {
                    assert(self@ =~= upsert(old(self)@, name@, hash@));
                }
            },
        }
        proof {
            if old(self).wf() {
                lemma_upsert_preserves_unique(old(self)@, name@, hash@);
            }
        }
    }
}

} // verus!
