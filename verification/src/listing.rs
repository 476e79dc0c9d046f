//! What a scan of one directory yields: the names of its entries and what
//! each of them is.

use vstd::prelude::*;

verus! {

/// What an entry of a directory is.
#[derive(Clone, Copy, Debug, PartialEq, Eq, Structural)]
pub enum EntryKind {
    File,
    Dir,
    Other,
}

/// One entry of a directory, in the order in which the scan met it.
#[derive(Debug)]
pub struct DirEntry {
    pub name: String,
    pub kind: EntryKind,
}

/// A directory entry as plain values.
pub struct DirEntryView {
    pub name: Seq<char>,
    pub kind: EntryKind,
}

impl DirEntry {
    /// This entry as plain values.
    pub open spec fn view(&self) -> DirEntryView {
        DirEntryView { name: self.name@, kind: self.kind }
    }
}

/// The entries of a listing as plain values.
pub open spec fn listing_view(entries: Seq<DirEntry>) -> Seq<DirEntryView> {
    Seq::new(entries.len(), |i: int| entries[i]@)
}

} // verus!
