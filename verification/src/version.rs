//! Version numbers of a report line.
//!
//! The versions of a line are the entries of its directory whose names are
//! decimal numbers. A new upload takes the number after the highest one, and claims
//! it by creating the directory with an operation that fails when the name
//! exists already: whoever creates the directory owns the number. What
//! follows from this for callers that race is proved in `race`.

use crate::listing::{DirEntry, DirEntryView, EntryKind, listing_view};
use crate::text::{
    decimal_digits, decimal_string, lemma_decimal_digits_injective, lemma_decimal_round_trip,
    parse_u32, parsed_u32,
};
use vstd::prelude::*;

verus! {

/// The version that an entry of a line directory stands for, if its name
/// is a number. Whatever the entry is, a file as much as a directory, its
/// name is taken: a version can only be created under a name that is free.
pub open spec fn entry_version(e: DirEntryView) -> Option<u32> {
    parsed_u32(e.name)
}

/// The highest version among `entries`, or 0 when there is none.
pub open spec fn highest_version(entries: Seq<DirEntryView>) -> nat
    decreases entries.len(),
{
    if entries.len() == 0 {
        0
    } else {
        let rest = highest_version(entries.drop_last());
        match entry_version(entries.last()) {
            Some(v) if v as nat > rest => v as nat,
            _ => rest,
        }
    }
}

/// Whether some entry of `entries` stands for version `v`.
pub open spec fn has_version(entries: Seq<DirEntryView>, v: nat) -> bool {
    exists|i: int| 0 <= i < entries.len() && #[trigger] entry_version(entries[i]) == Some(v as u32)
        && v <= u32::MAX
}

/// The highest version bounds every version present, and is itself present
/// unless it is 0.
pub proof fn lemma_highest_version(entries: Seq<DirEntryView>)
    ensures
        highest_version(entries) <= u32::MAX,
        forall|i: int|
            0 <= i < entries.len() ==> (#[trigger] entry_version(entries[i]) matches Some(v)
                ==> v <= highest_version(entries)),
        highest_version(entries) > 0 ==> has_version(entries, highest_version(entries)),
    decreases entries.len(),
{
    if entries.len() > 0 {
        let rest = entries.drop_last();
        lemma_highest_version(rest);
        let h = highest_version(entries);
        assert forall|i: int| 0 <= i < entries.len() implies (#[trigger] entry_version(
            entries[i],
        ) matches Some(v) ==> v <= h) by {
            if i < entries.len() - 1 {
                assert(rest[i] == entries[i]);
            }
        }
        if h > 0 {
            if h == highest_version(rest) {
                let i = choose|i: int|
                    0 <= i < rest.len() && #[trigger] entry_version(rest[i]) == Some(h as u32);
                assert(rest[i] == entries[i]);
                assert(entry_version(entries[i]) == Some(h as u32));
            } else {
                assert(entry_version(entries[entries.len() - 1]) == Some(h as u32));
            }
        }
    }
}

/// The name of the directory of version `id`.
pub open spec fn version_name(id: nat) -> Seq<char> {
    decimal_digits(id)
}

/// The name of the directory of version `id`.
pub fn version_dir_name(id: u32) -> (name: String)
    ensures
        name@ == version_name(id as nat),
{
    decimal_string(id as u64)
}

/// The highest version among `entries`, or 0 when there is none.
pub fn latest_version(entries: &Vec<DirEntry>) -> (max: u32)
    ensures
        max == highest_version(listing_view(entries@)),
{
    let mut max: u32 = 0;
    let mut i: usize = 0;
    let ghost all = listing_view(entries@);
    assert(all.take(0) =~= Seq::<DirEntryView>::empty());
    while i < entries.len()
        invariant
            i <= entries.len(),
            all == listing_view(entries@),
            max == highest_version(all.take(i as int)),
        decreases entries.len() - i,
    {
        let e = &entries[i];
        proof {
            assert(all.take(i + 1).drop_last() =~= all.take(i as int));
            assert(all.take(i + 1).last() == e@);
        }
        match parse_u32(e.name.as_str()) {
            Some(v) => {
                if v > max {
                    max = v;
                }
            },
            None => {},
        }
        i = i + 1;
    }
    assert(all.take(i as int) =~= all);
    max
}

/// The number of the next version of a line whose directory lists
/// `entries`: one more than the highest version present.
pub fn next_sequential_id(entries: &Vec<DirEntry>) -> (id: u32)
    requires
        highest_version(listing_view(entries@)) < u32::MAX,
    ensures
        id == highest_version(listing_view(entries@)) + 1,
{
    latest_version(entries) + 1
}

/// The next version of a line, or `None` when the highest version present
/// is the largest number there is.
pub fn propose_next_id(entries: &Vec<DirEntry>) -> (r: Option<u32>)
    ensures
        match r {
            Some(id) => id == highest_version(listing_view(entries@)) + 1,
            None => highest_version(listing_view(entries@)) == u32::MAX,
        },
{
    proof {
        lemma_highest_version(listing_view(entries@));
    }
    if latest_version(entries) == 0xffff_ffff {
        None
    } else {
        Some(next_sequential_id(entries))
    }
}

/// How the attempt to create the directory of a version ended.
#[derive(Debug)]
pub enum CreateOutcome {
    /// The directory did not exist and was created.
    Created,
    /// An entry of that name exists: another upload took the number.
    AlreadyExists,
    /// The directory could not be created, for the reason given.
    Failed(String),
}

/// The outcome of a creation as plain values.
pub enum CreateOutcomeView {
    Created,
    AlreadyExists,
    Failed(Seq<char>),
}

impl CreateOutcome {
    /// This value as plain values.
    pub open spec fn view(&self) -> CreateOutcomeView {
        match self {
            CreateOutcome::Created => CreateOutcomeView::Created,
            CreateOutcome::AlreadyExists => CreateOutcomeView::AlreadyExists,
            CreateOutcome::Failed(reason) => CreateOutcomeView::Failed(reason@),
        }
    }
}

/// What the allocator does after an attempt.
#[derive(Debug)]
pub enum Allocation {
    /// The version is reserved: its number and the name of its directory.
    Allocated(u32, String),
    /// The number was taken meanwhile: scan the line again.
    Retry,
    /// Allocation failed, with the message to report.
    Failed(String),
}

/// The decision of the allocator as plain values.
pub enum AllocationView {
    Allocated(u32, Seq<char>),
    Retry,
    Failed(Seq<char>),
}

impl Allocation {
    /// This value as plain values.
    pub open spec fn view(&self) -> AllocationView {
        match self {
            Allocation::Allocated(id, name) => AllocationView::Allocated(*id, name@),
            Allocation::Retry => AllocationView::Retry,
            Allocation::Failed(message) => AllocationView::Failed(message@),
        }
    }
}

/// The text before the reason of a failed allocation.
pub open spec fn create_failure_prefix() -> Seq<char> {
    "Failed to create report directory: "@
}

/// How the allocation of version `id` goes on after the attempt to create
/// its directory: a created directory reserves the version, an existing
/// name asks for a new scan, any other failure ends the allocation.
pub open spec fn decided(id: u32, outcome: CreateOutcomeView) -> AllocationView {
    match outcome {
        CreateOutcomeView::Created => AllocationView::Allocated(id, version_name(id as nat)),
        CreateOutcomeView::AlreadyExists => AllocationView::Retry,
        CreateOutcomeView::Failed(reason) => AllocationView::Failed(
            create_failure_prefix() + reason,
        ),
    }
}

/// Decides how the allocation of version `id` goes on after the attempt to
/// create its directory.
pub fn allocate_next_id_dir(id: u32, outcome: CreateOutcome) -> (r: Allocation)
    ensures
        r@ == decided(id, outcome@),
{
    match outcome {
        CreateOutcome::Created => Allocation::Allocated(id, version_dir_name(id)),
        CreateOutcome::AlreadyExists => Allocation::Retry,
        CreateOutcome::Failed(reason) => {
            let mut message = String::from_str("Failed to create report directory: ");
            message.append(reason.as_str());
            Allocation::Failed(message)
        },
    }
}

// ---------------------------------------------------------------------
// Laws of allocation
// ---------------------------------------------------------------------

/// A listing with one more directory, named as version `id` is named.
pub open spec fn with_version(entries: Seq<DirEntryView>, id: nat) -> Seq<DirEntryView> {
    entries.push(DirEntryView { name: version_name(id), kind: EntryKind::Dir })
}

/// The name of a version is read back as that version.
pub proof fn lemma_version_name_round_trip(id: nat)
    requires
        id <= u32::MAX,
    ensures
        parsed_u32(version_name(id)) == Some(id as u32),
{
    lemma_decimal_round_trip(id);
}

/// Different versions have directories of different names.
pub proof fn lemma_version_names_differ(a: nat, b: nat)
    requires
        a != b,
    ensures
        version_name(a) != version_name(b),
{
    if version_name(a) == version_name(b) {
        lemma_decimal_digits_injective(a, b);
    }
}

/// The proposed version is new: it is above every version present, so no
/// number is ever used twice, and the first version of an empty line is 1.
pub proof fn lemma_next_id_is_fresh(entries: Seq<DirEntryView>)
    ensures
        !has_version(entries, highest_version(entries) + 1),
        forall|i: int|
            0 <= i < entries.len() ==> (#[trigger] entry_version(entries[i]) matches Some(v)
                ==> v < highest_version(entries) + 1),
        entries.len() == 0 ==> highest_version(entries) + 1 == 1,
{
    lemma_highest_version(entries);
}

/// Uploads made one after the other get consecutive versions: once the
/// directory of the proposed version `id` exists, the next proposal is
/// `id + 1`.
pub proof fn lemma_sequential_ids_are_consecutive(entries: Seq<DirEntryView>)
    requires
        highest_version(entries) < u32::MAX,
    ensures
        highest_version(with_version(entries, highest_version(entries) + 1)) == highest_version(
            entries,
        ) + 1,
{
    let id = highest_version(entries) + 1;
    let grown = with_version(entries, id);
    lemma_version_name_round_trip(id);
    assert(grown.drop_last() =~= entries);
    assert(entry_version(grown.last()) == Some(id as u32));
}

/// The versions of `n` uploads made one after the other on a line that
/// starts with the listing `entries`.
pub open spec fn sequential_ids(entries: Seq<DirEntryView>, n: nat) -> Seq<nat>
    decreases n,
{
    if n == 0 {
        Seq::empty()
    } else {
        let id = highest_version(entries) + 1;
        seq![id] + sequential_ids(with_version(entries, id), (n - 1) as nat)
    }
}

/// Sequential uploads get the versions `h + 1, h + 2, ...` without a gap,
/// where `h` is the highest version that the line held before: on a fresh
/// line they are `1, 2, 3, ...`.
pub proof fn lemma_sequential_ids_count_up(entries: Seq<DirEntryView>, n: nat)
    requires
        highest_version(entries) + n <= u32::MAX,
    ensures
        sequential_ids(entries, n).len() == n,
        forall|k: int|
            0 <= k < n ==> #[trigger] sequential_ids(entries, n)[k] == highest_version(entries)
                + 1 + k,
    decreases n,
{
    if n > 0 {
        let id = highest_version(entries) + 1;
        let grown = with_version(entries, id);
        lemma_sequential_ids_are_consecutive(entries);
        lemma_sequential_ids_count_up(grown, (n - 1) as nat);
        let tail = sequential_ids(grown, (n - 1) as nat);
        assert forall|k: int| 0 <= k < n implies #[trigger] sequential_ids(entries, n)[k]
            == highest_version(entries) + 1 + k by {
            if k > 0 {
                assert(sequential_ids(entries, n)[k] == tail[k - 1]);
            }
        }
    }
}

} // verus!
