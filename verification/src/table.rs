//! Small tables keyed by a name.
use crate::text;
use crate::text::strings;
use vstd::prelude::*;

verus! {

/// A set of names.
#[derive(Debug)]
pub struct Names {
    /// The names, each as often as it happened to be noted.
    pub entries: Vec<String>,
}

impl View for Names {
    type V = Set<Seq<char>>;

    open spec fn view(&self) -> Set<Seq<char>> {
        Set::new(|name: Seq<char>| strings(self.entries@).contains(name))
    }
}

impl Names {
    /// No names.
    pub fn new() -> (r: Names)
        ensures
            r@ == Set::<Seq<char>>::empty(),
    {
        let r = Names { entries: Vec::new() };
        proof {
            assert(r@ =~= Set::<Seq<char>>::empty());
        }
        r
    }

    /// Whether a name is one of them.
    pub fn contains(&self, name: &str) -> (r: bool)
        ensures
            r == self@.contains(name@),
    {
        let mut at: usize = 0;
        while at < self.entries.len()
            invariant
                at <= self.entries@.len(),
                forall|i: int| 0 <= i < at ==> #[trigger] strings(self.entries@)[i] != name@,
            decreases self.entries@.len() - at,
        {
            if text::same(self.entries[at].as_str(), name) {
                proof {
                    assert(strings(self.entries@)[at as int] == name@);
                }
                return true;
            }
            at += 1;
        }
        false
    }

    /// Adds a name.
    pub fn insert(&mut self, name: &str)
        ensures
            final(self)@ == old(self)@.insert(name@),
    {
        if self.contains(name) {
            proof {
                assert(self@ =~= self@.insert(name@));
            }
            return ;
        }
        let ghost before = *self;
        self.entries.push(text::owned(name));
        proof {
            let old_names = strings(before.entries@);
            let new_names = strings(self.entries@);
            assert(new_names =~= old_names.push(name@));
            assert forall|n: Seq<char>| self@.contains(n) == before@.insert(name@).contains(n) by {
                if old_names.contains(n) {
                    let i = choose|i: int| 0 <= i < old_names.len() && old_names[i] == n;
                    assert(new_names[i] == n);
                }
                if n == name@ {
                    assert(new_names[old_names.len() as int] == n);
                }
                if new_names.contains(n) {
                    let i = choose|i: int| 0 <= i < new_names.len() && new_names[i] == n;
                    if i < old_names.len() {
                        assert(old_names[i] == n);
                    }
                }
            }
            assert(self@ =~= before@.insert(name@));
        }
    }

    /// Adds every name of another set.
    pub fn extend(&mut self, other: &Names)
        ensures
            final(self)@ == old(self)@.union(other@),
    {
        let mut at: usize = 0;
        let ghost before = self@;
        proof {
            assert(self@ =~= before.union(Set::new(|name: Seq<char>| strings(other.entries@).take(0).contains(name))));
        }
        while at < other.entries.len()
            invariant
                at <= other.entries@.len(),
                self@ == before.union(Set::new(|name: Seq<char>| strings(other.entries@).take(at as int).contains(name))),
            decreases other.entries@.len() - at,
        {
            self.insert(other.entries[at].as_str());
            proof {
                let names = strings(other.entries@);
                let taken = names.take(at as int);
                let next = names.take(at + 1);
                assert(next =~= taken.push(names[at as int]));
                assert forall|n: Seq<char>| next.contains(n) == (taken.contains(n) || n == names[at as int]) by {
                    if taken.contains(n) {
                        let i = choose|i: int| 0 <= i < taken.len() && taken[i] == n;
                        assert(next[i] == n);
                    }
                    if n == names[at as int] {
                        assert(next[at as int] == n);
                    }
                    if next.contains(n) {
                        let i = choose|i: int| 0 <= i < next.len() && next[i] == n;
                        if i < at {
                            assert(taken[i] == n);
                        }
                    }
                }
                assert(self@ =~= before.union(Set::new(|name: Seq<char>| next.contains(name))));
            }
            at += 1;
        }
        proof {
            assert(strings(other.entries@).take(at as int) =~= strings(other.entries@));
            assert(self@ =~= before.union(other@));
        }
    }
}

impl Default for Names {
    /// No names.
    fn default() -> (r: Names)
        ensures
            r@ == Set::<Seq<char>>::empty(),
    {
        Names::new()
    }
}

/// A value for each of several names.
#[derive(Debug)]
pub struct Table<V> {
    /// The names and their values. Of a name that occurs twice, the later value counts.
    pub entries: Vec<(String, V)>,
}

/// Whether the last of the first `n` entries for a name is at `index`.
pub open spec fn is_last<V>(entries: Seq<(String, V)>, name: Seq<char>, index: int) -> bool {
    &&& 0 <= index < entries.len()
    &&& entries[index].0@ == name
    &&& forall|i: int| index < i < entries.len() ==> (#[trigger] entries[i]).0@ != name
}

/// The index of the last entry for a name.
pub open spec fn last_index<V>(entries: Seq<(String, V)>, name: Seq<char>) -> int {
    choose|index: int| is_last(entries, name, index)
}

impl<V> View for Table<V> {
    type V = Map<Seq<char>, V>;

    open spec fn view(&self) -> Map<Seq<char>, V> {
        Map::new(
            |name: Seq<char>| exists|index: int| is_last(self.entries@, name, index),
            |name: Seq<char>| self.entries@[last_index(self.entries@, name)].1,
        )
    }
}

impl<V> Table<V> {
    /// An entry that is the last for its name is the one that counts.
    pub proof fn lemma_last(self, name: Seq<char>, index: int)
        requires
            is_last(self.entries@, name, index),
        ensures
            self@.contains_key(name),
            self@[name] == self.entries@[index].1,
    {
        let other = last_index(self.entries@, name);
        assert(is_last(self.entries@, name, other));
        if other < index {
            assert(self.entries@[index].0@ != name);
        } else if index < other {
            assert(self.entries@[other].0@ != name);
        }
    }

    /// A name that no entry has is not in the table.
    pub proof fn lemma_none(self, name: Seq<char>)
        requires
            forall|i: int| 0 <= i < self.entries@.len() ==> (#[trigger] self.entries@[i]).0@ != name,
        ensures
            !self@.contains_key(name),
    {
        if self@.contains_key(name) {
            let index = choose|index: int| is_last(self.entries@, name, index);
            assert(self.entries@[index].0@ == name);
        }
    }

    /// A name that some entry has is in the table.
    pub proof fn lemma_some(self, name: Seq<char>, at: int)
        requires
            0 <= at < self.entries@.len(),
            self.entries@[at].0@ == name,
        ensures
            self@.contains_key(name),
        decreases self.entries@.len() - at,
    {
        if exists|i: int| at < i < self.entries@.len() && (#[trigger] self.entries@[i]).0@ == name {
            let i = choose|i: int| at < i < self.entries@.len() && (#[trigger] self.entries@[i]).0@ == name;
            self.lemma_some(name, i);
        } else {
            assert(is_last(self.entries@, name, at));
        }
    }

    /// An empty table.
    pub fn new() -> (r: Table<V>)
        ensures
            r@ == Map::<Seq<char>, V>::empty(),
    {
        let r = Table { entries: Vec::new() };
        proof {
            assert(r@ =~= Map::<Seq<char>, V>::empty());
        }
        r
    }

    /// How many entries there are.
    pub fn len(&self) -> (r: usize)
        ensures
            r == self.entries@.len(),
    {
        self.entries.len()
    }

    /// Whether no name has a value.
    pub fn is_empty(&self) -> (r: bool)
        ensures
            r == (self@ == Map::<Seq<char>, V>::empty()),
    {
        proof {
            if self.entries@.len() == 0 {
                assert(self@ =~= Map::<Seq<char>, V>::empty());
            } else {
                self.lemma_some(self.entries@[0].0@, 0);
            }
        }
        self.entries.len() == 0
    }

    /// Where the last entry for a name is, or where there is none.
    fn find(&self, name: &str) -> (r: Option<usize>)
        ensures
            match r {
                Some(index) => is_last(self.entries@, name@, index as int),
                None => forall|i: int| 0 <= i < self.entries@.len() ==> (#[trigger] self.entries@[i]).0@ != name@,
            },
    {
        let mut at: usize = self.entries.len();
        while at > 0
            invariant
                at <= self.entries@.len(),
                forall|i: int| at <= i < self.entries@.len() ==> (#[trigger] self.entries@[i]).0@ != name@,
            decreases at,
        {
            if text::same(self.entries[at - 1].0.as_str(), name) {
                return Some(at - 1);
            }
            at -= 1;
        }
        None
    }

    /// The value for a name.
    pub fn get(&self, name: &str) -> (r: Option<&V>)
        ensures
            r is Some <==> self@.contains_key(name@),
            r matches Some(value) ==> *value == self@[name@],
    {
        match self.find(name) {
            Some(index) => {
                proof {
                    self.lemma_last(name@, index as int);
                }
                Some(&self.entries[index].1)
            },
            None => {
                proof {
                    self.lemma_none(name@);
                }
                None
            },
        }
    }

    /// Sets the value for a name.
    pub fn insert(&mut self, name: &str, value: V)
        ensures
            final(self)@ == old(self)@.insert(name@, value),
    {
        let ghost before = *self;
        match self.find(name) {
            Some(index) => {
                self.entries.set(index, (text::owned(name), value));
                proof {
                    assert forall|n: Seq<char>| self@.contains_key(n) == before@.contains_key(n) by {
                        if self@.contains_key(n) {
                            let i = choose|i: int| is_last(self.entries@, n, i);
                            assert(before.entries@[i].0@ == n);
                            before.lemma_some(n, i);
                        }
                        if before@.contains_key(n) {
                            let i = choose|i: int| is_last(before.entries@, n, i);
                            assert(self.entries@[i].0@ == n);
                            self.lemma_some(n, i);
                        }
                    }
                    before.lemma_last(name@, index as int);
                    assert forall|n: Seq<char>| self@.contains_key(n) implies self@[n] == before@.insert(name@, value)[n] by {
                        let i = choose|i: int| is_last(self.entries@, n, i);
                        self.lemma_last(n, i);
                        assert(before.entries@[i].0@ == n);
                        assert forall|j: int| i < j < before.entries@.len() implies (#[trigger] before.entries@[j]).0@ != n by {
                            assert(self.entries@[j].0@ != n);
                        }
                        before.lemma_last(n, i);
                    }
                    assert(self@ =~= before@.insert(name@, value));
                }
            },
            None => {
                self.entries.push((text::owned(name), value));
                proof {
                    let end = before.entries@.len() as int;
                    assert forall|n: Seq<char>| self@.contains_key(n) == before@.insert(name@, value).contains_key(n) by {
                        if self@.contains_key(n) {
                            let i = choose|i: int| is_last(self.entries@, n, i);
                            if i < end {
                                assert(before.entries@[i].0@ == n);
                                before.lemma_some(n, i);
                            }
                        }
                        if before@.contains_key(n) {
                            let i = choose|i: int| is_last(before.entries@, n, i);
                            assert(self.entries@[i].0@ == n);
                            self.lemma_some(n, i);
                        }
                        if n == name@ {
                            self.lemma_some(n, end);
                        }
                    }
                    assert forall|n: Seq<char>| self@.contains_key(n) implies self@[n] == before@.insert(name@, value)[n] by {
                        let i = choose|i: int| is_last(self.entries@, n, i);
                        self.lemma_last(n, i);
                        if i < end {
                            assert(before.entries@[i].0@ == n);
                            assert(self.entries@[end].0@ != n);
                            assert forall|j: int| i < j < before.entries@.len() implies (#[trigger] before.entries@[j]).0@ != n by {
                                assert(self.entries@[j].0@ != n);
                            }
                            before.lemma_last(n, i);
                        }
                    }
                    assert(self@ =~= before@.insert(name@, value));
                }
            },
        }
    }
}

impl<V> Default for Table<V> {
    /// An empty table.
    fn default() -> (r: Table<V>)
        ensures
            r@ == Map::<Seq<char>, V>::empty(),
    {
        Table::new()
    }
}

} // verus!
