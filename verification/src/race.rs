//! Uploads that race for the versions of one line.
//!
//! Each caller scans the line and proposes the number after the highest
//! one, as `next_sequential_id` does, then tries to create the directory of
//! that number and goes on as `allocate_next_id_dir` decides. Creating fails
//! where the name exists, and only there. The callers take their turns in
//! any order.
//!
//! Whatever the order, the callers get different versions, the versions
//! follow the highest one that the line held without a gap, no caller
//! scans again more often than there are other callers, and the race ends
//! with every caller served.

use crate::listing::{DirEntryView, EntryKind};
use crate::version::{
    decided, entry_version, highest_version, lemma_highest_version,
    lemma_sequential_ids_are_consecutive, lemma_version_name_round_trip, version_name,
    with_version, AllocationView, CreateOutcomeView,
};
use vstd::prelude::*;

verus! {

/// One caller of the allocator: the number that it has proposed and not
/// yet tried, the version that it has reserved, how often it had to scan
/// again, and how many turns it has taken.
pub struct Caller {
    pub proposal: Option<nat>,
    pub version: Option<nat>,
    pub retries: nat,
    pub turns: nat,
}

/// The line directory and the callers that race for its versions.
pub struct Race {
    pub dir: Seq<DirEntryView>,
    pub callers: Seq<Caller>,
}

/// The turn of one caller.
pub enum Turn {
    /// The caller scans the line and proposes a number.
    Scan(int),
    /// The caller tries to create the directory of its proposal.
    Create(int),
}

/// `n` callers before their first turn, at a line that lists `dir`.
pub open spec fn start_of(dir: Seq<DirEntryView>, n: nat) -> Race {
    Race {
        dir,
        callers: Seq::new(
            n,
            |c: int| Caller { proposal: None, version: None, retries: 0, turns: 0 },
        ),
    }
}

/// Whether an entry named `name` is in `dir`.
pub open spec fn has_name(dir: Seq<DirEntryView>, name: Seq<char>) -> bool {
    exists|i: int| 0 <= i < dir.len() && (#[trigger] dir[i]).name == name
}

/// What creating a directory named `name` in `dir` gives: it fails where
/// the name exists, and only there.
pub open spec fn create_outcome(dir: Seq<DirEntryView>, name: Seq<char>) -> CreateOutcomeView {
    if has_name(dir, name) {
        CreateOutcomeView::AlreadyExists
    } else {
        CreateOutcomeView::Created
    }
}

/// Whether a turn can be taken: by a caller that has no version yet, a
/// scan where it has no proposal and the line has a next number, a
/// creation where it has a proposal.
pub open spec fn can_take(race: Race, turn: Turn) -> bool {
    match turn {
        Turn::Scan(c) => 0 <= c < race.callers.len() && race.callers[c].version is None
            && race.callers[c].proposal is None && highest_version(race.dir) < u32::MAX,
        Turn::Create(c) => 0 <= c < race.callers.len() && race.callers[c].version is None
            && race.callers[c].proposal is Some,
    }
}

/// The race after a turn.
pub open spec fn after(race: Race, turn: Turn) -> Race {
    match turn {
        Turn::Scan(c) => Race {
            callers: race.callers.update(
                c,
                Caller {
                    proposal: Some(highest_version(race.dir) + 1),
                    turns: race.callers[c].turns + 1,
                    ..race.callers[c]
                },
            ),
            ..race
        },
        Turn::Create(c) => {
            let id = race.callers[c].proposal->0;
            match decided(id as u32, create_outcome(race.dir, version_name(id))) {
                AllocationView::Allocated(version, name) => Race {
                    dir: race.dir.push(DirEntryView { name, kind: EntryKind::Dir }),
                    callers: race.callers.update(
                        c,
                        Caller {
                            proposal: None,
                            version: Some(version as nat),
                            turns: race.callers[c].turns + 1,
                            ..race.callers[c]
                        },
                    ),
                },
                _ => Race {
                    callers: race.callers.update(
                        c,
                        Caller {
                            proposal: None,
                            retries: race.callers[c].retries + 1,
                            turns: race.callers[c].turns + 1,
                            ..race.callers[c]
                        },
                    ),
                    ..race
                },
            }
        },
    }
}

/// The race after the turns `turns`, taken in their order.
pub open spec fn after_all(race: Race, turns: Seq<Turn>) -> Race
    decreases turns.len(),
{
    if turns.len() == 0 {
        race
    } else {
        after(after_all(race, turns.drop_last()), turns.last())
    }
}

/// Whether each of `turns` can be taken when its time comes.
pub open spec fn can_take_all(race: Race, turns: Seq<Turn>) -> bool
    decreases turns.len(),
{
    turns.len() == 0 || (can_take_all(race, turns.drop_last()) && can_take(
        after_all(race, turns.drop_last()),
        turns.last(),
    ))
}

/// The number of callers that have their version.
pub open spec fn served(callers: Seq<Caller>) -> nat
    decreases callers.len(),
{
    if callers.len() == 0 {
        0
    } else {
        served(callers.drop_last()) + if callers.last().version is Some {
            1nat
        } else {
            0nat
        }
    }
}

/// Whether some caller has got version `v`.
pub open spec fn is_taken(callers: Seq<Caller>, v: nat) -> bool {
    exists|c: int| 0 <= c < callers.len() && (#[trigger] callers[c]).version == Some(v)
}

/// Whether the proposal of a caller is behind the line: the number is
/// taken already.
pub open spec fn is_stale(caller: Caller, highest: nat) -> bool {
    caller.proposal matches Some(p) && p <= highest
}

/// What holds of a race that began at a line whose highest version was
/// `m`, at every moment.
pub open spec fn in_order(race: Race, m: nat) -> bool {
    let h = highest_version(race.dir);
    &&& m <= h <= u32::MAX
    &&& h - m == served(race.callers)
    &&& forall|v: nat| m < v <= h ==> has_name(race.dir, #[trigger] version_name(v))
    &&& forall|c: int|
        0 <= c < race.callers.len() ==> ((#[trigger] race.callers[c]).version matches Some(v)
            ==> m < v <= h && race.callers[c].retries < v - m)
    &&& forall|c: int, d: int|
        0 <= c < race.callers.len() && 0 <= d < race.callers.len() && c != d && (
        #[trigger] race.callers[c]).version is Some ==> race.callers[c].version != (
        #[trigger] race.callers[d]).version
    &&& forall|v: nat| m < v <= h ==> #[trigger] is_taken(race.callers, v)
    &&& forall|c: int|
        0 <= c < race.callers.len() ==> ((#[trigger] race.callers[c]).proposal matches Some(p)
            ==> m < p <= h + 1 && p <= u32::MAX)
    &&& forall|c: int|
        0 <= c < race.callers.len() && (#[trigger] race.callers[c]).version is None
            ==> race.callers[c].retries + (if is_stale(race.callers[c], h) {
            1nat
        } else {
            0nat
        }) <= h - m
    &&& forall|c: int|
        0 <= c < race.callers.len() ==> (#[trigger] race.callers[c]).turns == turns_due(
            race.callers[c],
        )
}

/// The turns that a caller has taken, by what it has to show for them: a
/// scan and a creation for each time it had to scan again and for its
/// version, and a scan for its proposal.
pub open spec fn turns_due(caller: Caller) -> nat {
    2 * caller.retries + (if caller.proposal is Some {
        1nat
    } else {
        0nat
    }) + (if caller.version is Some {
        2nat
    } else {
        0nat
    })
}

/// The turns that all callers have taken.
pub open spec fn all_turns(callers: Seq<Caller>) -> nat
    decreases callers.len(),
{
    if callers.len() == 0 {
        0
    } else {
        all_turns(callers.drop_last()) + callers.last().turns
    }
}

/// How the number of all turns changes when one caller changes.
pub proof fn lemma_all_turns_update(callers: Seq<Caller>, c: int, caller: Caller)
    requires
        0 <= c < callers.len(),
    ensures
        all_turns(callers.update(c, caller)) + callers[c].turns == all_turns(callers)
            + caller.turns,
    decreases callers.len(),
{
    let changed = callers.update(c, caller);
    if c == callers.len() - 1 {
        assert(changed.drop_last() =~= callers.drop_last());
    } else {
        lemma_all_turns_update(callers.drop_last(), c, caller);
        assert(changed.drop_last() =~= callers.drop_last().update(c, caller));
    }
}

/// Callers that have taken at most `k` turns each have taken at most
/// `k` times their number together.
pub proof fn lemma_all_turns_bound(callers: Seq<Caller>, k: nat)
    requires
        forall|c: int| 0 <= c < callers.len() ==> (#[trigger] callers[c]).turns <= k,
    ensures
        all_turns(callers) <= k * callers.len(),
    decreases callers.len(),
{
    if callers.len() > 0 {
        let rest = callers.drop_last();
        assert forall|c: int| 0 <= c < rest.len() implies (#[trigger] rest[c]).turns <= k by {
            assert(rest[c] == callers[c]);
        }
        lemma_all_turns_bound(rest, k);
        assert(callers[callers.len() - 1].turns <= k);
        assert(k * rest.len() + k == k * callers.len()) by (nonlinear_arith)
            requires
                rest.len() + 1 == callers.len(),
        ;
    } else {
        assert(k * callers.len() == 0) by (nonlinear_arith)
            requires
                callers.len() == 0,
        ;
    }
}

/// Every turn is the turn of one caller.
pub proof fn lemma_turns_are_counted(race: Race, turns: Seq<Turn>)
    requires
        can_take_all(race, turns),
    ensures
        all_turns(after_all(race, turns).callers) == all_turns(race.callers) + turns.len(),
    decreases turns.len(),
{
    if turns.len() > 0 {
        lemma_turns_are_counted(race, turns.drop_last());
        let before = after_all(race, turns.drop_last());
        let next = after(before, turns.last());
        match turns.last() {
            Turn::Scan(c) => {
                lemma_all_turns_update(before.callers, c, next.callers[c]);
                assert(next.callers =~= before.callers.update(c, next.callers[c]));
            },
            Turn::Create(c) => {
                lemma_all_turns_update(before.callers, c, next.callers[c]);
                assert(next.callers =~= before.callers.update(c, next.callers[c]));
            },
        }
    }
}

/// No more callers are served than there are, and all are served only
/// where each has its version.
pub proof fn lemma_served_bound(callers: Seq<Caller>)
    ensures
        served(callers) <= callers.len(),
        (forall|c: int| 0 <= c < callers.len() ==> (#[trigger] callers[c]).version is Some)
            ==> served(callers) == callers.len(),
    decreases callers.len(),
{
    if callers.len() > 0 {
        let rest = callers.drop_last();
        lemma_served_bound(rest);
        if forall|c: int| 0 <= c < callers.len() ==> (#[trigger] callers[c]).version is Some {
            assert(callers[callers.len() - 1].version is Some);
            assert forall|c: int| 0 <= c < rest.len() implies (
            #[trigger] rest[c]).version is Some by {
                assert(rest[c] == callers[c]);
            }
        }
    }
}

/// How the number of served callers changes when one caller changes.
pub proof fn lemma_served_update(callers: Seq<Caller>, c: int, caller: Caller)
    requires
        0 <= c < callers.len(),
    ensures
        served(callers.update(c, caller)) + (if callers[c].version is Some {
            1nat
        } else {
            0nat
        }) == served(callers) + (if caller.version is Some {
            1nat
        } else {
            0nat
        }),
    decreases callers.len(),
{
    let changed = callers.update(c, caller);
    if c == callers.len() - 1 {
        assert(changed.drop_last() =~= callers.drop_last());
    } else {
        lemma_served_update(callers.drop_last(), c, caller);
        assert(changed.drop_last() =~= callers.drop_last().update(c, caller));
    }
}

/// Nobody is served before the first turn.
pub proof fn lemma_start_is_in_order(dir: Seq<DirEntryView>, n: nat)
    ensures
        in_order(start_of(dir, n), highest_version(dir)),
        served(start_of(dir, n).callers) == 0,
        all_turns(start_of(dir, n).callers) == 0,
    decreases n,
{
    lemma_highest_version(dir);
    let callers = start_of(dir, n).callers;
    if n > 0 {
        lemma_start_is_in_order(dir, (n - 1) as nat);
        assert(callers.drop_last() =~= start_of(dir, (n - 1) as nat).callers);
    }
}

/// A name in the line that writes a number writes no more than the
/// highest version: the name of the next version is free.
pub proof fn lemma_next_name_is_free(dir: Seq<DirEntryView>)
    requires
        highest_version(dir) < u32::MAX,
    ensures
        !has_name(dir, version_name(highest_version(dir) + 1)),
{
    let next = highest_version(dir) + 1;
    lemma_highest_version(dir);
    lemma_version_name_round_trip(next);
    if has_name(dir, version_name(next)) {
        let i = choose|i: int| 0 <= i < dir.len() && (#[trigger] dir[i]).name == version_name(next);
        assert(entry_version(dir[i]) == Some(next as u32));
    }
}

/// Every turn keeps the race in order.
pub proof fn lemma_turn_keeps_order(race: Race, m: nat, turn: Turn)
    requires
        in_order(race, m),
        can_take(race, turn),
    ensures
        in_order(after(race, turn), m),
{
    let h = highest_version(race.dir);
    let next = after(race, turn);
    match turn {
        Turn::Scan(c) => {
            let caller = Caller {
                proposal: Some(h + 1),
                turns: race.callers[c].turns + 1,
                ..race.callers[c]
            };
            lemma_served_update(race.callers, c, caller);
            assert forall|v: nat| m < v <= h implies #[trigger] is_taken(next.callers, v) by {
                assert(is_taken(race.callers, v));
                let d = choose|d: int|
                    0 <= d < race.callers.len() && (#[trigger] race.callers[d]).version == Some(v);
                assert(next.callers[d].version == Some(v));
            }
            assert(in_order(next, m));
        },
        Turn::Create(c) => {
            let p = race.callers[c].proposal->0;
            assert(m < p <= h + 1 && p <= u32::MAX);
            if p <= h {
                // the number is taken: the caller scans again
                assert(has_name(race.dir, version_name(p)));
                let caller = Caller {
                    proposal: None,
                    retries: race.callers[c].retries + 1,
                    turns: race.callers[c].turns + 1,
                    ..race.callers[c]
                };
                assert(next.callers == race.callers.update(c, caller));
                assert(next.dir == race.dir);
                lemma_served_update(race.callers, c, caller);
                assert(is_stale(race.callers[c], h));
                assert forall|v: nat| m < v <= h implies #[trigger] is_taken(next.callers, v) by {
                    assert(is_taken(race.callers, v));
                    let d = choose|d: int|
                        0 <= d < race.callers.len() && (#[trigger] race.callers[d]).version
                            == Some(v);
                    assert(next.callers[d].version == Some(v));
                }
                assert(in_order(next, m));
            } else {
                // the number is free: the caller gets it
                lemma_next_name_is_free(race.dir);
                assert(p == h + 1);
                let caller = Caller {
                    proposal: None,
                    version: Some(p),
                    turns: race.callers[c].turns + 1,
                    ..race.callers[c]
                };
                assert((p as u32) as nat == p);
                assert(next.callers == race.callers.update(c, caller));
                assert(next.dir == with_version(race.dir, p));
                lemma_sequential_ids_are_consecutive(race.dir);
                assert(highest_version(next.dir) == h + 1);
                lemma_served_update(race.callers, c, caller);
                assert forall|v: nat| m < v <= h + 1 implies has_name(
                    next.dir,
                    #[trigger] version_name(v),
                ) by {
                    if v <= h {
                        let i = choose|i: int|
                            0 <= i < race.dir.len() && (#[trigger] race.dir[i]).name
                                == version_name(v);
                        assert(next.dir[i].name == version_name(v));
                    } else {
                        assert(next.dir[race.dir.len() as int].name == version_name(v));
                    }
                }
                assert forall|v: nat| m < v <= h + 1 implies #[trigger] is_taken(
                    next.callers,
                    v,
                ) by {
                    if v <= h {
                        assert(is_taken(race.callers, v));
                        let d = choose|d: int|
                            0 <= d < race.callers.len() && (#[trigger] race.callers[d]).version
                                == Some(v);
                        assert(d != c);
                        assert(next.callers[d].version == Some(v));
                    } else {
                        assert(next.callers[c].version == Some(v));
                    }
                }
                assert forall|a: int, b: int|
                    0 <= a < next.callers.len() && 0 <= b < next.callers.len() && a != b && (
                    #[trigger] next.callers[a]).version is Some implies next.callers[a].version
                    != (#[trigger] next.callers[b]).version by {
                    if a != c && b != c {
                        assert(race.callers[a].version != race.callers[b].version);
                    } else if a == c {
                        assert(race.callers[b].version matches Some(v) ==> v <= h);
                    } else {
                        assert(race.callers[a].version matches Some(v) ==> v <= h);
                    }
                }
                assert forall|d: int|
                    0 <= d < next.callers.len() && (#[trigger] next.callers[d]).version
                        is None implies next.callers[d].retries + (if is_stale(
                    next.callers[d],
                    h + 1,
                ) {
                    1nat
                } else {
                    0nat
                }) <= h + 1 - m by {
                    assert(d != c);
                    assert(next.callers[d] == race.callers[d]);
                    assert(race.callers[d].version is None);
                }
                assert(in_order(next, m));
            }
        },
    }
}

/// Turns in any order keep the race in order.
pub proof fn lemma_turns_keep_order(race: Race, m: nat, turns: Seq<Turn>)
    requires
        in_order(race, m),
        can_take_all(race, turns),
    ensures
        in_order(after_all(race, turns), m),
    decreases turns.len(),
{
    if turns.len() > 0 {
        lemma_turns_keep_order(race, m, turns.drop_last());
        lemma_turn_keeps_order(after_all(race, turns.drop_last()), m, turns.last());
    }
}

/// However `n` callers race for the versions of a line whose highest
/// version is `m`, and whatever the line holds: at every moment the
/// versions that callers have got are different from each other, lie
/// between `m + 1` and `m + n`, and leave no number out up to the highest
/// one; each of their directories was created once, by the caller that got
/// the version; and no caller has scanned again more than `n - 1` times.
/// Once every caller is served, their versions are exactly `m + 1` to
/// `m + n`.
pub proof fn lemma_racing_callers_get_consecutive_versions(
    dir: Seq<DirEntryView>,
    n: nat,
    turns: Seq<Turn>,
)
    requires
        can_take_all(start_of(dir, n), turns),
    ensures
        ({
            let m = highest_version(dir);
            let end = after_all(start_of(dir, n), turns);
            let h = highest_version(end.dir);
            &&& end.callers.len() == n
            &&& h == m + served(end.callers)
            &&& h <= m + n
            &&& forall|c: int, d: int|
                0 <= c < n && 0 <= d < n && c != d && (#[trigger] end.callers[c]).version is Some
                    ==> end.callers[c].version != (#[trigger] end.callers[d]).version
            &&& forall|c: int|
                0 <= c < n ==> ((#[trigger] end.callers[c]).version matches Some(v) ==> m < v <= h
                    && has_name(end.dir, version_name(v)))
            &&& forall|v: nat| m < v <= h ==> #[trigger] is_taken(end.callers, v)
            &&& forall|c: int| 0 <= c < n ==> (#[trigger] end.callers[c]).retries < n || n == 0
            &&& (forall|c: int| 0 <= c < n ==> (#[trigger] end.callers[c]).version is Some) ==> h
                == m + n
        }),
{
    let m = highest_version(dir);
    lemma_start_is_in_order(dir, n);
    lemma_turns_keep_order(start_of(dir, n), m, turns);
    lemma_callers_stay(start_of(dir, n), turns);
    let end = after_all(start_of(dir, n), turns);
    let h = highest_version(end.dir);
    lemma_served_bound(end.callers);
    assert forall|c: int| 0 <= c < n implies ((#[trigger] end.callers[c]).version matches Some(v)
        ==> m < v <= h && has_name(end.dir, version_name(v))) by {
        if end.callers[c].version is Some {
            let v = end.callers[c].version->0;
            assert(has_name(end.dir, version_name(v)));
        }
    }
    assert forall|c: int| 0 <= c < n implies (#[trigger] end.callers[c]).retries < n || n == 0 by {
        if end.callers[c].version is Some {
            assert(end.callers[c].retries < end.callers[c].version->0 - m);
        } else {
            assert(served(end.callers) < n) by {
                if served(end.callers) == n {
                    lemma_all_served(end.callers, c);
                }
            }
        }
    }
}

/// The race ends, and it ends with every caller served. `n` callers take
/// no more than `2 * n * n` turns together, in whatever order; and where
/// no caller can take a turn any more, each caller has its version, unless
/// the line has run out of numbers. So every call returns, and the `n`
/// versions are `m + 1` to `m + n`, where `m` was the highest version
/// before.
pub proof fn lemma_every_caller_is_served(dir: Seq<DirEntryView>, n: nat, turns: Seq<Turn>)
    requires
        can_take_all(start_of(dir, n), turns),
    ensures
        turns.len() <= 2 * n * n,
        ({
            let end = after_all(start_of(dir, n), turns);
            (forall|turn: Turn| !can_take(end, turn)) && highest_version(end.dir) < u32::MAX ==> {
                &&& forall|c: int| 0 <= c < n ==> (#[trigger] end.callers[c]).version is Some
                &&& highest_version(end.dir) == highest_version(dir) + n
            }
        }),
{
    let m = highest_version(dir);
    let start = start_of(dir, n);
    lemma_start_is_in_order(dir, n);
    lemma_turns_keep_order(start, m, turns);
    lemma_callers_stay(start, turns);
    lemma_turns_are_counted(start, turns);
    lemma_racing_callers_get_consecutive_versions(dir, n, turns);
    let end = after_all(start, turns);
    assert forall|c: int| 0 <= c < end.callers.len() implies (#[trigger] end.callers[c]).turns <= 2
        * n by {
        assert(end.callers[c].turns == turns_due(end.callers[c]));
        assert(end.callers[c].retries < n);
        if end.callers[c].version is Some {
            assert(end.callers[c].proposal is None) by {
                lemma_served_caller_has_no_proposal(start, turns, c);
            }
        } else if end.callers[c].proposal is Some {
            lemma_served_bound(end.callers);
            assert(served(end.callers) < n) by {
                if served(end.callers) == n {
                    lemma_all_served(end.callers, c);
                }
            }
        }
    }
    lemma_all_turns_bound(end.callers, 2 * n);
    assert(2 * n * end.callers.len() == 2 * n * n);
    if (forall|turn: Turn| !can_take(end, turn)) && highest_version(end.dir) < u32::MAX {
        assert forall|c: int| 0 <= c < n implies (#[trigger] end.callers[c]).version is Some by {
            assert(!can_take(end, Turn::Scan(c)));
            assert(!can_take(end, Turn::Create(c)));
        }
    }
}

/// A caller that has its version has no proposal left.
pub proof fn lemma_served_caller_has_no_proposal(race: Race, turns: Seq<Turn>, c: int)
    requires
        can_take_all(race, turns),
        0 <= c < race.callers.len(),
        race.callers[c].version is Some ==> race.callers[c].proposal is None,
    ensures
        after_all(race, turns).callers[c].version is Some ==> after_all(
            race,
            turns,
        ).callers[c].proposal is None,
    decreases turns.len(),
{
    if turns.len() > 0 {
        lemma_served_caller_has_no_proposal(race, turns.drop_last(), c);
        lemma_callers_stay(race, turns.drop_last());
    }
}

/// Turns neither add nor remove callers.
pub proof fn lemma_callers_stay(race: Race, turns: Seq<Turn>)
    requires
        can_take_all(race, turns),
    ensures
        after_all(race, turns).callers.len() == race.callers.len(),
    decreases turns.len(),
{
    if turns.len() > 0 {
        lemma_callers_stay(race, turns.drop_last());
    }
}

/// Where as many callers are served as there are, each one is.
pub proof fn lemma_all_served(callers: Seq<Caller>, c: int)
    requires
        0 <= c < callers.len(),
        served(callers) == callers.len(),
    ensures
        callers[c].version is Some,
    decreases callers.len(),
{
    let rest = callers.drop_last();
    lemma_served_bound(rest);
    if c < callers.len() - 1 {
        lemma_all_served(rest, c);
        assert(rest[c] == callers[c]);
    }
}

} // verus!
