//! A map from names to values that is kept in the lexicographic order of
//! its names, each name occurring once.

use crate::text::{
    chars_eq, chars_of, chars_precede, lemma_lex_irreflexive, lemma_lex_total,
    lemma_lex_transitive, lex_less,
};
use vstd::prelude::*;

verus! {

/// Pairs of a name and a value, sorted by name without repetition.
pub struct OrderedMap<V> {
    pub entries: Vec<(String, V)>,
}

/// The names of `entries`, in their order.
pub open spec fn names_of<V>(entries: Seq<(String, V)>) -> Seq<Seq<char>> {
    Seq::new(entries.len(), |i: int| entries[i].0@)
}

/// Whether `names` ascends strictly in the lexicographic order.
pub open spec fn strictly_ascending(names: Seq<Seq<char>>) -> bool {
    forall|i: int, j: int| 0 <= i < j < names.len() ==> lex_less(names[i], names[j])
}

/// The place of `name` among `entries`, where it occurs.
pub open spec fn position_of<V>(entries: Seq<(String, V)>, name: Seq<char>) -> int {
    choose|i: int| 0 <= i < entries.len() && entries[i].0@ == name
}

/// The map that `entries` stands for.
pub open spec fn map_of<V>(entries: Seq<(String, V)>) -> Map<Seq<char>, V> {
    Map::new(
        |name: Seq<char>| exists|i: int| 0 <= i < entries.len() && entries[i].0@ == name,
        |name: Seq<char>| entries[position_of(entries, name)].1,
    )
}

/// In an ascending sequence a name has one place only.
pub proof fn lemma_ascending_names_are_unique(names: Seq<Seq<char>>, i: int, j: int)
    requires
        strictly_ascending(names),
        0 <= i < names.len(),
        0 <= j < names.len(),
        names[i] == names[j],
    ensures
        i == j,
{
    lemma_lex_irreflexive(names[i]);
    if i < j {
        assert(lex_less(names[i], names[j]));
    } else if j < i {
        assert(lex_less(names[j], names[i]));
    }
}

/// What the map of a sorted sequence holds at each of its places.
pub proof fn lemma_map_of_entry<V>(entries: Seq<(String, V)>, i: int)
    requires
        strictly_ascending(names_of(entries)),
        0 <= i < entries.len(),
    ensures
        map_of(entries).dom().contains(entries[i].0@),
        map_of(entries)[entries[i].0@] == entries[i].1,
{
    let name = entries[i].0@;
    let p = position_of(entries, name);
    assert(names_of(entries)[i] == names_of(entries)[p]);
    lemma_ascending_names_are_unique(names_of(entries), i, p);
}

impl<V> OrderedMap<V> {
    /// The invariant: names ascend strictly.
    pub open spec fn wf(&self) -> bool {
        strictly_ascending(names_of(self.entries@))
    }

    /// The map that this value stands for.
    pub open spec fn view(&self) -> Map<Seq<char>, V> {
        map_of(self.entries@)
    }

    /// The names in the order in which they are listed.
    pub open spec fn names(&self) -> Seq<Seq<char>> {
        names_of(self.entries@)
    }

    /// The empty map.
    pub fn new() -> (m: Self)
        ensures
            m.wf(),
            m@ == Map::<Seq<char>, V>::empty(),
            m.entries@.len() == 0,
    {
        let m = OrderedMap { entries: Vec::new() };
        assert(m@ =~= Map::<Seq<char>, V>::empty());
        m
    }

    /// The number of names.
    pub fn len(&self) -> (n: usize)
        ensures
            n == self.entries@.len(),
    {
        self.entries.len()
    }

    /// Whether the map holds no name.
    pub fn is_empty(&self) -> (b: bool)
        requires
            self.wf(),
        ensures
            b == (self@ == Map::<Seq<char>, V>::empty()),
            b == (self.entries@.len() == 0),
    {
        if self.entries.len() == 0 {
            assert(self@ =~= Map::<Seq<char>, V>::empty());
            true
        } else {
            proof {
                lemma_map_of_entry(self.entries@, 0);
            }
            false
        }
    }

    /// Sets the value of `name`, replacing the value that it had.
    pub fn insert(&mut self, name: String, value: V)
        requires
            old(self).wf(),
        ensures
            final(self).wf(),
            final(self)@ == old(self)@.insert(name@, value),
    {
        let key = chars_of(name.as_str());
        let ghost before = self.entries@;
        let mut i: usize = 0;
        let mut found: bool = false;
        while i < self.entries.len()
            invariant_except_break
                !found,
            invariant
                self.entries@ == before,
                key@ == name@,
                i <= before.len(),
                forall|k: int| 0 <= k < i ==> lex_less(#[trigger] before[k].0@, key@),
            ensures
                self.entries@ == before,
                i <= before.len(),
                forall|k: int| 0 <= k < i ==> lex_less(#[trigger] before[k].0@, key@),
                found ==> i < before.len() && before[i as int].0@ == key@,
                !found ==> (i == before.len() || lex_less(key@, before[i as int].0@)),
            decreases before.len() - i,
        {
            let here = chars_of(self.entries[i].0.as_str());
            if !chars_precede(&here, &key) {
                if chars_eq(&here, &key) {
                    found = true;
                } else {
                    proof {
                        lemma_lex_total(here@, key@);
                    }
                }
                break ;
            }
            i = i + 1;
        }
        if found {
            self.entries.set(i, (name, value));
            proof {
                let after = self.entries@;
                assert(names_of(after) =~= names_of(before));
                assert forall|k: Seq<char>| #[trigger]
                    map_of(after).dom().contains(k) == before_or_new(before, name@, k) by {
                    if before_or_new(before, name@, k) {
                        if k == name@ {
                            assert(after[i as int].0@ == k);
                        } else {
                            let p = choose|p: int| 0 <= p < before.len() && before[p].0@ == k;
                            assert(after[p].0@ == k);
                        }
                    }
                    if map_of(after).dom().contains(k) {
                        let p = choose|p: int| 0 <= p < after.len() && after[p].0@ == k;
                        assert(before[p].0@ == k);
                    }
                }
                assert(map_of(after) =~= map_of(before).insert(name@, value)) by {
                    assert forall|k: Seq<char>|
                        map_of(after).dom().contains(k) implies #[trigger] map_of(after)[k]
                        == map_of(before).insert(name@, value)[k] by {
                        let p = position_of(after, k);
                        lemma_map_of_entry(after, p);
                        if k != name@ {
                            assert(before[p].0@ == k);
                            lemma_map_of_entry(before, p);
                        } else {
                            assert(names_of(after)[p] == names_of(after)[i as int]);
                            lemma_ascending_names_are_unique(names_of(after), p, i as int);
                        }
                    }
                }
            }
        } else {
            self.entries.insert(i, (name, value));
            proof {
                let after = self.entries@;
                assert forall|a: int, b: int| 0 <= a < b < after.len() implies lex_less(
                    names_of(after)[a],
                    names_of(after)[b],
                ) by {
                    let x = if a < i { a } else { a - 1 };
                    let y = if b < i { b } else { b - 1 };
                    if a != i && b != i {
                        assert(lex_less(names_of(before)[x], names_of(before)[y]));
                    } else if a == i {
                        assert(names_of(before)[y] == before[y].0@);
                        if y > i {
                            assert(lex_less(names_of(before)[i as int], names_of(before)[y]));
                            lemma_lex_transitive(key@, before[i as int].0@, before[y].0@);
                        }
                    } else {
                        assert(lex_less(before[a].0@, key@));
                    }
                }
                assert forall|k: Seq<char>| #[trigger]
                    map_of(after).dom().contains(k) == before_or_new(before, name@, k) by {
                    if before_or_new(before, name@, k) {
                        if k == name@ {
                            assert(after[i as int].0@ == k);
                        } else {
                            let p = choose|p: int| 0 <= p < before.len() && before[p].0@ == k;
                            let q = if p < i { p } else { p + 1 };
                            assert(after[q].0@ == k);
                        }
                    }
                    if map_of(after).dom().contains(k) {
                        let q = choose|q: int| 0 <= q < after.len() && after[q].0@ == k;
                        if q != i {
                            let p = if q < i { q } else { q - 1 };
                            assert(before[p].0@ == k);
                        }
                    }
                }
                assert(map_of(after) =~= map_of(before).insert(name@, value)) by {
                    assert forall|k: Seq<char>|
                        map_of(after).dom().contains(k) implies #[trigger] map_of(after)[k]
                        == map_of(before).insert(name@, value)[k] by {
                        let q = position_of(after, k);
                        lemma_map_of_entry(after, q);
                        if k != name@ {
                            let p = if q < i { q } else { q - 1 };
                            assert(before[p].0@ == k);
                            lemma_map_of_entry(before, p);
                        } else {
                            assert(names_of(after)[q] == names_of(after)[i as int]);
                            lemma_ascending_names_are_unique(names_of(after), q, i as int);
                        }
                    }
                }
            }
        }
    }
}

/// Whether `k` is `name` or one of the names of `entries`.
pub open spec fn before_or_new<V>(entries: Seq<(String, V)>, name: Seq<char>, k: Seq<char>) -> bool {
    k == name || exists|p: int| 0 <= p < entries.len() && entries[p].0@ == k
}

} // verus!
