//! The font list a server advertises over HTTP: one entry per font file,
//! with size, MIME type and content hash, and its reduction to the
//! inventory that reconciliation runs on.

use vstd::prelude::*;
use crate::assoc::upsert;
use crate::fontfile::{get_font_mime_type, mime_type_spec};
use crate::inventory::Inventory;

verus! {

/// One advertised font.
pub struct FontInfo {
    pub name: String,
    pub size: u64,
    pub mime_type: String,
    pub sha256: String,
}

impl View for FontInfo {
    type V = (Seq<char>, u64, Seq<char>, Seq<char>);

    open spec fn view(&self) -> (Seq<char>, u64, Seq<char>, Seq<char>) {
        (self.name@, self.size, self.mime_type@, self.sha256@)
    }
}

/// The list served for a whole font directory.
pub struct FontList {
    pub fonts: Vec<FontInfo>,
}

impl View for FontList {
    type V = Seq<(Seq<char>, u64, Seq<char>, Seq<char>)>;

    open spec fn view(&self) -> Seq<(Seq<char>, u64, Seq<char>, Seq<char>)> {
        self.fonts@.map_values(|f: FontInfo| f@)
    }
}

/// Builds one list entry for a scanned file, deriving the MIME type from
/// the file name.
pub fn font_entry(name: String, size: u64, sha256: String) -> (r: FontInfo)
    ensures
        r.name@ == name@,
        r.size == size,
        r.sha256@ == sha256@,
        r.mime_type@ == mime_type_spec(name@),
{
    let mime_type = get_font_mime_type(name.as_str());
    FontInfo { name, size, mime_type, sha256 }
}

/// The name-to-hash snapshot of an advertised list, a later entry winning
/// on a repeated name.
pub open spec fn listing_snapshot(
    fs: Seq<(Seq<char>, u64, Seq<char>, Seq<char>)>,
) -> Seq<(Seq<char>, Seq<char>)>
    decreases fs.len(),
{
    if fs.len() == 0 {
        Seq::<(Seq<char>, Seq<char>)>::empty()
    } else {
        upsert(listing_snapshot(fs.drop_last()), fs.last().0, fs.last().3)
    }
}

impl FontList {
    pub fn new() -> (r: FontList)
        ensures
            r@ == Seq::<(Seq<char>, u64, Seq<char>, Seq<char>)>::empty(),
    {
        let r = FontList { fonts: Vec::new() };
        proof {
            assert(r@ =~= Seq::<(Seq<char>, u64, Seq<char>, Seq<char>)>::empty());
        }
        r
    }

    pub fn push(&mut self, f: FontInfo)
        ensures
            final(self)@ == old(self)@.push(f@),
    {
        self.fonts.push(f);
        proof {
            assert(self@ =~= old(self)@.push(f@));
        }
    }

    pub fn len(&self) -> (n: usize)
        ensures
            n == self@.len(),
    {
        self.fonts.len()
    }

    /// The inventory reconciliation runs on.
    pub fn to_inventory(&self) -> (r: Inventory)
        ensures
            r@ == listing_snapshot(self@),
            r.wf(),
    {
        let mut inv = Inventory::new();
        let n = self.fonts.len();
        let mut i: usize = 0;
        proof {
            assert(self@.take(0) =~= Seq::<(Seq<char>, u64, Seq<char>, Seq<char>)>::empty());
            assert(listing_snapshot(self@.take(0)) =~= Seq::<(Seq<char>, Seq<char>)>::empty());
        }
        while i < n
            invariant
                i <= n,
                n == self@.len(),
                inv@ == listing_snapshot(self@.take(i as int)),
                inv.wf(),
            decreases n - i,
        {
            let f = &self.fonts[i];
            proof {
                assert(self@[i as int] == self.fonts@[i as int]@);
            }
            inv.insert(f.name.clone(), f.sha256.clone());
            proof {
                assert(self@.take(i + 1).drop_last() =~= self@.take(i as int));
                assert(self@.take(i + 1).last() == self@[i as int]);
            }
            i = i + 1;
        }
        proof {
            assert(self@.take(n as int) == self@);
        }
        inv
    }
}

} // verus!
