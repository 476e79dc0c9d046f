//! Finding the directory that holds the result files of an upload.
//!
//! An archive may wrap its results in folders. Starting at the directory
//! into which the archive was unpacked, the search looks at one directory
//! at a time: a directory with a result file is the answer; a directory
//! without one but with exactly one sub-directory is left for that
//! sub-directory; anywhere else the search stops where it stands. It goes
//! down three levels at most.

use crate::listing::{listing_view, DirEntry, DirEntryView, EntryKind};
use crate::text::{chars_end_with, chars_of, ends_with};
use vstd::prelude::*;

verus! {

/// How many levels the search goes down at most.
pub const MAX_DESCENT: u8 = 3;

/// Whether `name` ends in `dotted` with something before it.
pub open spec fn has_suffix_after_stem(name: Seq<char>, dotted: Seq<char>) -> bool {
    ends_with(name, dotted) && name.len() > dotted.len()
}

/// Whether a file of this name bears results: its extension is `json`,
/// `xml` or `txt`.
pub open spec fn has_result_extension(name: Seq<char>) -> bool {
    ||| has_suffix_after_stem(name, ".json"@)
    ||| has_suffix_after_stem(name, ".xml"@)
    ||| has_suffix_after_stem(name, ".txt"@)
}

/// Whether `entries` holds a result file.
pub open spec fn holds_results(entries: Seq<DirEntryView>) -> bool {
    exists|i: int|
        0 <= i < entries.len() && (#[trigger] entries[i]).kind == EntryKind::File
            && has_result_extension(entries[i].name)
}

/// The number of directories among `entries`.
pub open spec fn dir_count(entries: Seq<DirEntryView>) -> nat
    decreases entries.len(),
{
    if entries.len() == 0 {
        0
    } else {
        dir_count(entries.drop_last()) + if entries.last().kind == EntryKind::Dir {
            1nat
        } else {
            0nat
        }
    }
}

/// The name of the first directory among `entries`.
pub open spec fn first_dir(entries: Seq<DirEntryView>) -> Option<Seq<char>>
    decreases entries.len(),
{
    if entries.len() == 0 {
        None
    } else {
        match first_dir(entries.drop_last()) {
            Some(name) => Some(name),
            None => if entries.last().kind == EntryKind::Dir {
                Some(entries.last().name)
            } else {
                None
            },
        }
    }
}

/// Where the search goes from a directory.
#[derive(Debug, PartialEq, Eq)]
pub enum Descent {
    /// The directory holds result files: it is the answer.
    Found,
    /// The search goes on in the sub-directory of this name.
    Descend(String),
    /// The search ends here without result files.
    Stop,
}

/// The step as plain values.
pub enum DescentView {
    Found,
    Descend(Seq<char>),
    Stop,
}

impl Descent {
    /// This value as plain values.
    pub open spec fn view(&self) -> DescentView {
        match self {
            Descent::Found => DescentView::Found,
            Descent::Descend(name) => DescentView::Descend(name@),
            Descent::Stop => DescentView::Stop,
        }
    }
}

/// The step from a directory with the entries `entries`, reached after
/// `level` steps down.
pub open spec fn descent_from(level: u8, entries: Seq<DirEntryView>) -> DescentView {
    if level >= MAX_DESCENT {
        DescentView::Stop
    } else if holds_results(entries) {
        DescentView::Found
    } else if dir_count(entries) == 1 {
        DescentView::Descend(first_dir(entries)->0)
    } else {
        DescentView::Stop
    }
}

/// Whether `chars` ends in `dotted` with something before it.
fn ends_in(chars: &Vec<char>, dotted: &str) -> (b: bool)
    ensures
        b == has_suffix_after_stem(chars@, dotted@),
{
    chars_end_with(chars, dotted) && chars.len() > dotted.unicode_len()
}

/// Whether a file named `name` bears results.
pub fn is_result_file(name: &str) -> (b: bool)
    ensures
        b == has_result_extension(name@),
{
    let chars = chars_of(name);
    ends_in(&chars, ".json") || ends_in(&chars, ".xml") || ends_in(&chars, ".txt")
}

/// A directory is counted only where there is one.
pub proof fn lemma_first_dir(entries: Seq<DirEntryView>)
    ensures
        dir_count(entries) > 0 <==> first_dir(entries) is Some,
        first_dir(entries) matches Some(name) ==> exists|i: int|
            0 <= i < entries.len() && (#[trigger] entries[i]).kind == EntryKind::Dir
                && entries[i].name == name,
    decreases entries.len(),
{
    if entries.len() > 0 {
        let rest = entries.drop_last();
        lemma_first_dir(rest);
        if first_dir(rest) is Some {
            let i = choose|i: int|
                0 <= i < rest.len() && (#[trigger] rest[i]).kind == EntryKind::Dir && rest[i].name
                    == first_dir(rest)->0;
            assert(entries[i] == rest[i]);
        } else if entries.last().kind == EntryKind::Dir {
            assert(entries[entries.len() - 1].kind == EntryKind::Dir);
        }
    }
}

/// Decides where the search for result files goes from the directory
/// with the entries `entries`, reached after `level` steps down.
pub fn find_results_dir(level: u8, entries: &Vec<DirEntry>) -> (step: Descent)
    ensures
        step@ == descent_from(level, listing_view(entries@)),
{
    if level >= MAX_DESCENT {
        return Descent::Stop;
    }
    let ghost all = listing_view(entries@);
    let mut dirs: usize = 0;
    let mut first: Option<usize> = None;
    let mut i: usize = 0;
    assert(all.take(0) =~= Seq::<DirEntryView>::empty());
    while i < entries.len()
        invariant
            i <= entries.len(),
            level < MAX_DESCENT,
            all == listing_view(entries@),
            !holds_results(all.take(i as int)),
            dirs == dir_count(all.take(i as int)),
            dirs <= i,
            match first {
                Some(k) => k < i && first_dir(all.take(i as int)) == Some(entries@[k as int].name@),
                None => first_dir(all.take(i as int)) is None,
            },
        decreases entries.len() - i,
    {
        let entry = &entries[i];
        let ghost grown = all.take(i + 1);
        proof {
            assert(grown.drop_last() =~= all.take(i as int));
            assert(grown.last() == entry@);
        }
        match entry.kind {
            EntryKind::File => {
                if is_result_file(entry.name.as_str()) {
                    assert(all[i as int].kind == EntryKind::File && has_result_extension(
                        all[i as int].name,
                    ));
                    return Descent::Found;
                }
            },
            EntryKind::Dir => {
                dirs = dirs + 1;
                if first.is_none() {
                    first = Some(i);
                }
            },
            EntryKind::Other => {},
        }
        proof {
            if holds_results(grown) {
                let k = choose|k: int|
                    0 <= k < grown.len() && (#[trigger] grown[k]).kind == EntryKind::File
                        && has_result_extension(grown[k].name);
                if k < i {
                    assert(all.take(i as int)[k] == grown[k]);
                }
            }
        }
        i = i + 1;
    }
    assert(all.take(i as int) =~= all);
    if dirs == 1 {
        proof {
            lemma_first_dir(all);
        }
        match first {
            Some(k) => Descent::Descend(entries[k].name.clone()),
            None => Descent::Stop,
        }
    } else {
        Descent::Stop
    }
}

/// The search never goes down where it has gone down three times, and
/// where it goes down, it goes into a directory that the listing holds.
pub proof fn lemma_descent_is_bounded(level: u8, entries: Seq<DirEntryView>)
    ensures
        level >= MAX_DESCENT ==> descent_from(level, entries) is Stop,
        descent_from(level, entries) matches DescentView::Descend(name) ==> level < MAX_DESCENT
            && !holds_results(entries) && exists|i: int|
            0 <= i < entries.len() && (#[trigger] entries[i]).kind == EntryKind::Dir
                && entries[i].name == name,
{
    lemma_first_dir(entries);
}

} // verus!
