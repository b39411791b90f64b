//! The table of global variables, keyed by name.

use vstd::prelude::*;

use crate::scanner::bytes_equal;
use crate::value::{Value, ValueModel};

verus! {

/// Global variables: each name occurs at most once.
pub struct Globals {
    entries: Vec<(Vec<u8>, Value)>,
}

/// The index of the entry named `name`.
pub open spec fn entry_index(entries: Seq<(Vec<u8>, Value)>, name: Seq<u8>) -> int {
    choose|i: int| 0 <= i < entries.len() && (#[trigger] entries[i]).0@ == name
}

pub open spec fn has_entry(entries: Seq<(Vec<u8>, Value)>, name: Seq<u8>) -> bool {
    exists|i: int| 0 <= i < entries.len() && (#[trigger] entries[i]).0@ == name
}

pub open spec fn names_distinct(entries: Seq<(Vec<u8>, Value)>) -> bool {
    forall|i: int, j: int|
        0 <= i < entries.len() && 0 <= j < entries.len() && i != j ==> (#[trigger] entries[i]).0@
            != (#[trigger] entries[j]).0@
}

pub open spec fn entries_map(entries: Seq<(Vec<u8>, Value)>) -> Map<Seq<u8>, ValueModel> {
    Map::new(|name: Seq<u8>| has_entry(entries, name), |name: Seq<u8>| entries[entry_index(entries, name)].1@)
}

impl Globals {
    pub closed spec fn wf(&self) -> bool {
        names_distinct(self.entries@)
    }

    /// The globals as a map from names to values.
    pub closed spec fn view(&self) -> Map<Seq<u8>, ValueModel> {
        entries_map(self.entries@)
    }

    pub fn new() -> (globals: Globals)
        ensures
            globals.wf(),
            globals.view() == Map::<Seq<u8>, ValueModel>::empty(),
    {
        let globals = Globals { entries: Vec::new() };
        assert(globals.view() =~= Map::<Seq<u8>, ValueModel>::empty());
        globals
    }

    /// Where the entry named `name` is, if there is one.
    fn find(&self, name: &[u8]) -> (index: Option<usize>)
        requires
            self.wf(),
        ensures
            match index {
                Some(i) => i < self.entries@.len() && self.entries@[i as int].0@ == name@
                    && entry_index(self.entries@, name@) == i,
                None => !has_entry(self.entries@, name@),
            },
    {
        let mut i: usize = 0;
        while i < self.entries.len()
            invariant
                i <= self.entries@.len(),
                names_distinct(self.entries@),
                forall|j: int| 0 <= j < i ==> (#[trigger] self.entries@[j]).0@ != name@,
            decreases self.entries@.len() - i,
        {
            if bytes_equal(self.entries[i].0.as_slice(), name) {
                proof {
                    let k = entry_index(self.entries@, name@);
                    assert(self.entries@[i as int].0@ == name@);
                    assert(has_entry(self.entries@, name@));
                    assert(self.entries@[k].0@ == name@);
                    assert(k == i);
                }
                return Some(i);
            }
            i += 1;
        }
        None
    }

    /// The value of the global named `name`.
    pub fn get(&self, name: &[u8]) -> (value: Option<&Value>)
        requires
            self.wf(),
        ensures
            match value {
                Some(v) => self.view().contains_key(name@) && self.view()[name@] == v@,
                None => !self.view().contains_key(name@),
            },
    {
        match self.find(name) {
            Some(i) => Some(&self.entries[i].1),
            None => None,
        }
    }

    /// Defines or redefines the global named `name`.
    pub fn insert(&mut self, name: Vec<u8>, value: Value)
        requires
            old(self).wf(),
        ensures
            final(self).wf(),
            final(self).view() == old(self).view().insert(name@, value@),
    {
        let ghost key = name@;
        let ghost v = value@;
        let ghost before = self.entries@;
        match self.find(name.as_slice()) {
            Some(i) => {
                self.entries.set(i, (name, value));
                proof {
                    let after = self.entries@;
                    assert forall|a: int, b: int|
                        0 <= a < after.len() && 0 <= b < after.len() && a != b implies (#[trigger] after[a]).0@
                        != (#[trigger] after[b]).0@ by {
                        if a != i && b != i {
                            assert(after[a] == before[a] && after[b] == before[b]);
                        } else if a == i {
                            assert(before[i as int].0@ == key);
                            assert(after[b] == before[b]);
                        } else {
                            assert(before[i as int].0@ == key);
                            assert(after[a] == before[a]);
                        }
                    }
                    assert forall|n: Seq<u8>| #[trigger] has_entry(after, n) == has_entry(before, n) by {
                        if has_entry(before, n) {
                            let j = choose|j: int| 0 <= j < before.len() && (#[trigger] before[j]).0@ == n;
                            if j == i {
                                assert(after[i as int].0@ == n);
                            } else {
                                assert(after[j] == before[j]);
                            }
                        }
                        if has_entry(after, n) {
                            let j = choose|j: int| 0 <= j < after.len() && (#[trigger] after[j]).0@ == n;
                            if j == i {
                                assert(before[i as int].0@ == n);
                            } else {
                                assert(after[j] == before[j]);
                            }
                        }
                    }
                    assert forall|n: Seq<u8>| has_entry(after, n) implies entries_map(after)[n]
                        == entries_map(before).insert(key, v)[n] by {
                        let ja = entry_index(after, n);
                        if n == key {
                            assert(after[i as int].0@ == key);
                            assert(ja == i);
                        } else {
                            let jb = entry_index(before, n);
                            assert(ja != i);
                            assert(after[ja] == before[ja]);
                            assert(jb == ja);
                        }
                    }
                    assert(entries_map(after) =~= entries_map(before).insert(key, v));
                }
            },
            None => {
                self.entries.push((name, value));
                proof {
                    let after = self.entries@;
                    let last = before.len() as int;
                    assert forall|a: int, b: int|
                        0 <= a < after.len() && 0 <= b < after.len() && a != b implies (#[trigger] after[a]).0@
                        != (#[trigger] after[b]).0@ by {
                        if a != last && b != last {
                            assert(after[a] == before[a] && after[b] == before[b]);
                        } else if a == last {
                            assert(after[b] == before[b]);
                            assert(!has_entry(before, key));
                        } else {
                            assert(after[a] == before[a]);
                            assert(!has_entry(before, key));
                        }
                    }
                    assert forall|n: Seq<u8>| #[trigger] has_entry(after, n) == (has_entry(before, n) || n == key) by {
                        if has_entry(before, n) {
                            let j = choose|j: int| 0 <= j < before.len() && (#[trigger] before[j]).0@ == n;
                            assert(after[j] == before[j]);
                        }
                        if n == key {
                            assert(after[last].0@ == key);
                        }
                        if has_entry(after, n) {
                            let j = choose|j: int| 0 <= j < after.len() && (#[trigger] after[j]).0@ == n;
                            if j != last {
                                assert(after[j] == before[j]);
                            }
                        }
                    }
                    assert forall|n: Seq<u8>| has_entry(after, n) implies entries_map(after)[n]
                        == entries_map(before).insert(key, v)[n] by {
                        let ja = entry_index(after, n);
                        if n == key {
                            assert(after[last].0@ == key);
                            assert(ja == last);
                        } else {
                            let jb = entry_index(before, n);
                            assert(ja != last);
                            assert(after[ja] == before[ja]);
                            assert(jb == ja);
                        }
                    }
                    assert(entries_map(after) =~= entries_map(before).insert(key, v));
                }
            },
        }
    }
}


} // verus!
