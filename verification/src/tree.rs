//! The content tree the server browses: a read-only catalog of media
//! entries, each naming its parent. The engine consumes it through lookup
//! and ordered child enumeration.

use vstd::prelude::*;

verus! {

/// One catalog entry: a directory (container) or a playable leaf (item).
pub struct ContentEntry {
    pub id: String,
    pub parent_id: String,
    pub title: String,
    pub is_dir: bool,
    pub class: String,
}

impl ContentEntry {
    /// A field-for-field copy of the entry.
    pub fn duplicate(&self) -> (r: ContentEntry)
        ensures
            r == *self,
    {
        ContentEntry {
            id: self.id.clone(),
            parent_id: self.parent_id.clone(),
            title: self.title.clone(),
            is_dir: self.is_dir,
            class: self.class.clone(),
        }
    }
}

/// The first entry whose id is `id`, in catalog order.
pub open spec fn lookup_spec(entries: Seq<ContentEntry>, id: Seq<char>) -> Option<ContentEntry>
    decreases entries.len(),
{
    if entries.len() == 0 {
        None
    } else if entries[0].id@ == id {
        Some(entries[0])
    } else {
        lookup_spec(entries.skip(1), id)
    }
}

/// The entries whose parent is `id`, in catalog order.
pub open spec fn children_spec(entries: Seq<ContentEntry>, id: Seq<char>) -> Seq<ContentEntry>
    decreases entries.len(),
{
    if entries.len() == 0 {
        Seq::empty()
    } else if entries[0].parent_id@ == id {
        seq![entries[0]] + children_spec(entries.skip(1), id)
    } else {
        children_spec(entries.skip(1), id)
    }
}

/// The catalog of media entries, shared read-only by every request.
pub struct ContentTree {
    entries: Vec<ContentEntry>,
}

impl ContentTree {
    /// The entries in catalog order.
    pub closed spec fn entries_spec(&self) -> Seq<ContentEntry> {
        self.entries@
    }

    /// An empty catalog.
    pub fn new() -> (r: ContentTree)
        ensures
            r.entries_spec() == Seq::<ContentEntry>::empty(),
    {
        ContentTree { entries: Vec::new() }
    }

    /// Append an entry to the catalog.
    pub fn add(&mut self, entry: ContentEntry)
        ensures
            final(self).entries_spec() == old(self).entries_spec().push(entry),
    {
        self.entries.push(entry);
    }

    /// The catalog holds no entry at all.
    pub fn is_empty(&self) -> (r: bool)
        ensures
            r == (self.entries_spec().len() == 0),
    {
        self.entries.len() == 0
    }

    /// Resolve an id to the first entry carrying it.
    pub fn lookup(&self, id: &str) -> (r: Option<&ContentEntry>)
        ensures
            r is Some <==> lookup_spec(self.entries_spec(), id@) is Some,
            r is Some ==> *r.unwrap() == lookup_spec(self.entries_spec(), id@).unwrap(),
    {
        let ghost all = self.entries@;
        let mut i: usize = 0;
        proof {
            assert(all.skip(0) =~= all);
        }
        while i < self.entries.len()
            invariant
                i <= all.len(),
                all == self.entries@,
                lookup_spec(all, id@) == lookup_spec(all.skip(i as int), id@),
            decreases all.len() - i,
        {
            proof {
                assert(all.skip(i as int)[0] == all[i as int]);
                assert(all.skip(i as int).skip(1) =~= all.skip(i as int + 1));
            }
            if crate::strutil::str_eq(self.entries[i].id.as_str(), id) {
                return Some(&self.entries[i]);
            }
            i = i + 1;
        }
        None
    }

    /// Enumerate the children of the entry with id `id`, in catalog order.
    pub fn children(&self, id: &str) -> (r: Vec<ContentEntry>)
        ensures
            r@ == children_spec(self.entries_spec(), id@),
    {
        let ghost all = self.entries@;
        let mut out: Vec<ContentEntry> = Vec::new();
        let mut i: usize = 0;
        proof {
            assert(all.skip(0) =~= all);
        }
        while i < self.entries.len()
            invariant
                i <= all.len(),
                all == self.entries@,
                children_spec(all, id@) == out@ + children_spec(all.skip(i as int), id@),
            decreases all.len() - i,
        {
            let ghost before = out@;
            proof {
                assert(all.skip(i as int)[0] == all[i as int]);
                assert(all.skip(i as int).skip(1) =~= all.skip(i as int + 1));
            }
            if crate::strutil::str_eq(self.entries[i].parent_id.as_str(), id) {
                out.push(self.entries[i].duplicate());
                proof {
                    let child = all[i as int];
                    assert(children_spec(all.skip(i as int), id@) == seq![child] + children_spec(
                        all.skip(i as int + 1),
                        id@,
                    ));
                    assert(before + (seq![child] + children_spec(all.skip(i as int + 1), id@))
                        =~= out@ + children_spec(all.skip(i as int + 1), id@));
                }
            }
            i = i + 1;
        }
        proof {
            assert(children_spec(all.skip(i as int), id@) =~= Seq::<ContentEntry>::empty());
            assert(out@ + children_spec(all.skip(i as int), id@) =~= out@);
        }
        out
    }
}

} // verus!
