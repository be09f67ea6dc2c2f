//! A map from names to values that keeps its entries in the order of names.
//!
//! A directory's canonical form lists its entries by name, so the maps of a
//! tree hold them that way at all times: what is encoded is the list of
//! entries as it stands, and two maps with the same mappings hold the same
//! list, whatever the order in which they were filled.

use crate::names::compare_names;
use crate::names::lemma_name_lt_irreflexive;
use crate::names::lemma_name_lt_transitive;
use crate::names::lemma_name_trichotomy;
use crate::names::lemma_sorted_names_unique;
use crate::names::name_lt;
use crate::names::strictly_sorted;
use crate::names::NameOrder;
use vstd::prelude::*;

verus! {

/// A map from names to values, held as a list of entries in strictly
/// ascending order of names.
#[derive(Debug)]
pub struct NameMap<V> {
    entries: Vec<(String, V)>,
}

impl<V> NameMap<V> {
    /// The entries, in the order in which they are held.
    pub closed spec fn entries(&self) -> Seq<(String, V)> {
        self.entries@
    }

    /// The names of the entries, in the order in which they are held.
    pub open spec fn names(&self) -> Seq<Seq<char>> {
        Seq::new(self.entries().len(), |i: int| self.entries()[i].0@)
    }

    /// The values of the entries, in the order in which they are held.
    pub open spec fn values(&self) -> Seq<V> {
        Seq::new(self.entries().len(), |i: int| self.entries()[i].1)
    }

    /// The invariant: names stand in strictly ascending order. No name
    /// occurs twice.
    pub open spec fn wf(&self) -> bool {
        strictly_sorted(self.names())
    }

    /// The map from names to values that the entries make up.
    pub open spec fn map(&self) -> Map<Seq<char>, V> {
        Map::new(
            |name: Seq<char>| self.names().contains(name),
            |name: Seq<char>| self.values()[self.names().index_of(name)],
        )
    }

    /// An entry is structurally smaller than the map that holds it.
    pub proof fn lemma_entry_smaller(&self, i: int)
        requires
            0 <= i < self.entries().len(),
        ensures
            decreases_to!(self => self.entries()[i].1),
            decreases_to!(self => self.values()[i]),
    {
        broadcast use vstd::std_specs::vec::group_vec_axioms;

        assert(decreases_to!(self => self.entries));
        assert(decreases_to!(self.entries => self.entries@));
        assert(decreases_to!(self.entries@ => self.entries@[i]));
        assert(decreases_to!(self.entries@[i] => self.entries@[i].1));
    }

    /// In a well-formed map the entry at position `i` is the one that the
    /// map gives for its name.
    pub proof fn lemma_index_of(&self, i: int)
        requires
            self.wf(),
            0 <= i < self.entries().len(),
        ensures
            self.names().contains(self.names()[i]),
            self.names().index_of(self.names()[i]) == i,
            self.map().contains_key(self.names()[i]),
            self.map()[self.names()[i]] == self.values()[i],
    {
        let names = self.names();
        assert(names.contains(names[i]));
        let j = names.index_of(names[i]);
        lemma_name_lt_irreflexive(names[i]);
        if j < i {
            assert(name_lt(names[j], names[i]));
        }
        if i < j {
            assert(name_lt(names[i], names[j]));
        }
    }

    /// Two well-formed maps with the same mappings hold the same entries in
    /// the same places.
    pub proof fn lemma_canonical(&self, other: &NameMap<V>)
        requires
            self.wf(),
            other.wf(),
            self.map() == other.map(),
        ensures
            self.names() == other.names(),
            self.values() == other.values(),
    {
        assert forall|n: Seq<char>| self.names().contains(n) <==> other.names().contains(n) by {
            assert(self.map().contains_key(n) <==> self.names().contains(n));
            assert(other.map().contains_key(n) <==> other.names().contains(n));
        }
        lemma_sorted_names_unique(self.names(), other.names());
        assert forall|i: int| 0 <= i < self.values().len() implies self.values()[i]
            == other.values()[i] by {
            self.lemma_index_of(i);
            other.lemma_index_of(i);
        }
        assert(self.values() =~= other.values());
    }

    /// A map without entries.
    pub fn new() -> (m: Self)
        ensures
            m.wf(),
            m.entries().len() == 0,
            m.map() == Map::<Seq<char>, V>::empty(),
    {
        let m = NameMap { entries: Vec::new() };
        proof {
            assert(m.names() =~= Seq::empty());
            assert(m.map() =~= Map::<Seq<char>, V>::empty());
        }
        m
    }

    /// The number of entries.
    pub fn len(&self) -> (n: usize)
        ensures
            n == self.entries().len(),
    {
        self.entries.len()
    }

    /// Whether the map has no entries.
    pub fn is_empty(&self) -> (r: bool)
        ensures
            r == (self.entries().len() == 0),
    {
        self.entries.len() == 0
    }

    /// The entries, in the order of their names.
    pub fn as_slice(&self) -> (entries: &[(String, V)])
        ensures
            entries@ == self.entries(),
    {
        self.entries.as_slice()
    }

    /// The name of the entry at position `i`.
    pub fn name_at(&self, i: usize) -> (name: &String)
        requires
            i < self.entries().len(),
        ensures
            name@ == self.names()[i as int],
            *name == self.entries()[i as int].0,
    {
        &self.entries[i].0
    }

    /// The value of the entry at position `i`.
    pub fn value_at(&self, i: usize) -> (value: &V)
        requires
            i < self.entries().len(),
        ensures
            *value == self.values()[i as int],
    {
        &self.entries[i].1
    }

    /// The value of the entry at position `i`, to be changed in place. The
    /// names, and with them the order, stay as they are.
    pub fn value_mut(&mut self, i: usize) -> (value: &mut V)
        requires
            i < old(self).entries().len(),
        ensures
            *value == old(self).values()[i as int],
            final(self).replaces_value(*old(self), i as int, *final(value)),
    {
        &mut self.entries[i].1
    }

    /// `self` is `before` with the value at position `i` replaced by
    /// `value`, and nothing else changed.
    pub closed spec fn replaces_value(&self, before: NameMap<V>, i: int, value: V) -> bool {
        self.entries() == before.entries().update(i, (before.entries()[i].0, value))
    }

    /// What replacing a value changes, and what it leaves alone.
    pub proof fn lemma_replaces_value(&self, before: NameMap<V>, i: int, value: V)
        requires
            0 <= i < before.entries().len(),
            self.replaces_value(before, i, value),
        ensures
            self.names() == before.names(),
            self.values() == before.values().update(i, value),
            before.wf() ==> self.wf() && self.map() == before.map().insert(before.names()[i], value),
    {
        assert(self.names() =~= before.names());
        assert(self.values() =~= before.values().update(i, value));
        if before.wf() {
            assert(self.map() =~= before.map().insert(before.names()[i], value)) by {
                before.lemma_index_of(i);
                assert forall|n: Seq<char>| #[trigger]
                    self.map().contains_key(n) implies self.map()[n] == before.map().insert(
                    before.names()[i],
                    value,
                )[n] by {
                    let j = self.names().index_of(n);
                    self.lemma_index_of(j);
                    before.lemma_index_of(j);
                }
            }
        }
    }

    /// Where `name` stands, or would stand: `Ok` with the position of its
    /// entry, or `Err` with the position at which an entry of that name
    /// would have to be put.
    pub fn search(&self, name: &str) -> (r: Result<usize, usize>)
        requires
            self.wf(),
        ensures
            match r {
                Ok(i) => i < self.entries().len() && self.names()[i as int] == name@,
                Err(i) => {
                    &&& i <= self.entries().len()
                    &&& !self.names().contains(name@)
                    &&& forall|j: int| 0 <= j < i ==> name_lt(#[trigger] self.names()[j], name@)
                    &&& forall|j: int|
                        i <= j < self.entries().len() ==> name_lt(
                            name@,
                            #[trigger] self.names()[j],
                        )
                },
            },
    {
        let mut low: usize = 0;
        let mut high: usize = self.entries.len();
        while low < high
            invariant
                self.wf(),
                low <= high <= self.entries().len(),
                forall|j: int| 0 <= j < low ==> name_lt(#[trigger] self.names()[j], name@),
                forall|j: int|
                    high <= j < self.entries().len() ==> name_lt(
                        name@,
                        #[trigger] self.names()[j],
                    ),
            decreases high - low,
        {
            let mid = low + (high - low) / 2;
            match compare_names(self.entries[mid].0.as_str(), name) {
                NameOrder::Same => {
                    return Ok(mid);
                },
                NameOrder::Before => {
                    proof {
                        assert forall|j: int| 0 <= j < mid + 1 implies name_lt(
                            #[trigger] self.names()[j],
                            name@,
                        ) by {
                            if j < mid {
                                assert(name_lt(self.names()[j], self.names()[mid as int]));
                                lemma_name_lt_transitive(
                                    self.names()[j],
                                    self.names()[mid as int],
                                    name@,
                                );
                            }
                        }
                    }
                    low = mid + 1;
                },
                NameOrder::After => {
                    proof {
                        assert forall|j: int| mid <= j < self.entries().len() implies name_lt(
                            name@,
                            #[trigger] self.names()[j],
                        ) by {
                            if mid < j {
                                assert(name_lt(self.names()[mid as int], self.names()[j]));
                                lemma_name_lt_transitive(
                                    name@,
                                    self.names()[mid as int],
                                    self.names()[j],
                                );
                            }
                        }
                    }
                    high = mid;
                },
            }
        }
        proof {
            if self.names().contains(name@) {
                let j = self.names().index_of(name@);
                lemma_name_lt_irreflexive(name@);
            }
        }
        Err(low)
    }

    /// Whether the map has an entry of this name.
    pub fn contains_key(&self, name: &str) -> (r: bool)
        requires
            self.wf(),
        ensures
            r == self.map().contains_key(name@),
    {
        self.search(name).is_ok()
    }

    /// The value that the map gives for `name`, if any.
    pub fn get(&self, name: &str) -> (r: Option<&V>)
        requires
            self.wf(),
        ensures
            match r {
                Some(v) => self.map().contains_key(name@) && *v == self.map()[name@],
                None => !self.map().contains_key(name@),
            },
    {
        match self.search(name) {
            Ok(i) => {
                proof {
                    self.lemma_index_of(i as int);
                }
                Some(&self.entries[i].1)
            },
            Err(_) => None,
        }
    }

    /// Puts `value` under `name`, in place of what the map gave for that
    /// name before, which is returned.
    pub fn insert(&mut self, name: String, value: V) -> (r: Option<V>)
        requires
            old(self).wf(),
        ensures
            final(self).wf(),
            final(self).map() == old(self).map().insert(name@, value),
            match r {
                Some(v) => old(self).map().contains_key(name@) && v == old(self).map()[name@],
                None => !old(self).map().contains_key(name@),
            },
            match old(self).search_spec(name@) {
                Ok(i) => {
                    &&& final(self).names() == old(self).names()
                    &&& final(self).values() == old(self).values().update(i, value)
                },
                Err(i) => {
                    &&& final(self).names() == old(self).names().insert(i, name@)
                    &&& final(self).values() == old(self).values().insert(i, value)
                },
            },
    {
        let ghost before = *self;
        let found = self.search(name.as_str());
        proof {
            before.lemma_search_spec(name@, found);
        }
        match found {
            Ok(i) => {
                proof {
                    before.lemma_index_of(i as int);
                }
                let mut entry = (name, value);
                core::mem::swap(&mut self.entries[i], &mut entry);
                proof {
                    let after = *self;
                    assert(after.names() =~= before.names());
                    assert(after.values() =~= before.values().update(i as int, value));
                    assert(after.map() =~= before.map().insert(name@, value)) by {
                        assert forall|n: Seq<char>| #[trigger]
                            after.map().contains_key(n) implies after.map()[n]
                            == before.map().insert(name@, value)[n] by {
                            let j = after.names().index_of(n);
                            after.lemma_index_of(j);
                            before.lemma_index_of(j);
                        }
                        assert(before.names().contains(name@));
                    }
                }
                Some(entry.1)
            },
            Err(i) => {
                self.entries.insert(i, (name, value));
                proof {
                    let after = *self;
                    assert(after.names() =~= before.names().insert(i as int, name@));
                    assert(after.values() =~= before.values().insert(i as int, value));
                    assert(after.wf()) by {
                        assert forall|p: int, q: int| 0 <= p < q < after.names().len() implies name_lt(
                            #[trigger] after.names()[p],
                            #[trigger] after.names()[q],
                        ) by {
                            if q < i {
                                assert(name_lt(before.names()[p], before.names()[q]));
                            } else if q == i {
                                assert(name_lt(before.names()[p], name@));
                            } else if p < i {
                                assert(name_lt(before.names()[p], before.names()[q - 1]));
                            } else if p == i {
                                assert(name_lt(name@, before.names()[q - 1]));
                            } else {
                                assert(name_lt(before.names()[p - 1], before.names()[q - 1]));
                            }
                        }
                    }
                    assert(after.map() =~= before.map().insert(name@, value)) by {
                        assert forall|n: Seq<char>| #[trigger]
                            after.map().contains_key(n) <==> before.map().insert(
                                name@,
                                value,
                            ).contains_key(n) by {
                            if after.names().contains(n) {
                                let j = after.names().index_of(n);
                                if j < i {
                                    assert(before.names()[j] == n);
                                } else if j > i {
                                    assert(before.names()[j - 1] == n);
                                }
                            }
                            if before.names().contains(n) {
                                let j = before.names().index_of(n);
                                if j < i {
                                    assert(after.names()[j] == n);
                                } else {
                                    assert(after.names()[j + 1] == n);
                                }
                            }
                            if n == name@ {
                                assert(after.names()[i as int] == n);
                            }
                        }
                        assert forall|n: Seq<char>| #[trigger]
                            after.map().contains_key(n) implies after.map()[n]
                            == before.map().insert(name@, value)[n] by {
                            let j = after.names().index_of(n);
                            after.lemma_index_of(j);
                            if j < i {
                                before.lemma_index_of(j);
                            } else if j > i {
                                before.lemma_index_of(j - 1);
                            }
                        }
                    }
                }
                None
            },
        }
    }

    /// Puts `value` under `name` behind all entries. The name has to come
    /// after every name of the map.
    pub fn push_last(&mut self, name: String, value: V)
        requires
            old(self).wf(),
            forall|i: int| 0 <= i < old(self).names().len() ==> name_lt(#[trigger] old(self).names()[i], name@),
        ensures
            final(self).wf(),
            final(self).names() == old(self).names().push(name@),
            final(self).values() == old(self).values().push(value),
            final(self).map() == old(self).map().insert(name@, value),
    {
        let ghost before = *self;
        self.entries.push((name, value));
        proof {
            let after = *self;
            assert(after.names() =~= before.names().push(name@));
            assert(after.values() =~= before.values().push(value));
            assert(after.wf()) by {
                assert forall|p: int, q: int| 0 <= p < q < after.names().len() implies name_lt(
                    #[trigger] after.names()[p],
                    #[trigger] after.names()[q],
                ) by {
                    if q < before.names().len() {
                        assert(name_lt(before.names()[p], before.names()[q]));
                    } else {
                        assert(name_lt(before.names()[p], name@));
                    }
                }
            }
            let n = before.names().len() as int;
            assert(after.map() =~= before.map().insert(name@, value)) by {
                assert forall|k: Seq<char>| #[trigger]
                    after.map().contains_key(k) <==> before.map().insert(name@, value).contains_key(
                        k,
                    ) by {
                    if after.names().contains(k) {
                        let j = after.names().index_of(k);
                        if j < n {
                            assert(before.names()[j] == k);
                        }
                    }
                    if before.names().contains(k) {
                        let j = before.names().index_of(k);
                        assert(after.names()[j] == k);
                    }
                    if k == name@ {
                        assert(after.names()[n] == k);
                    }
                }
                assert forall|k: Seq<char>| #[trigger]
                    after.map().contains_key(k) implies after.map()[k] == before.map().insert(
                    name@,
                    value,
                )[k] by {
                    let j = after.names().index_of(k);
                    after.lemma_index_of(j);
                    if j < n {
                        before.lemma_index_of(j);
                    }
                }
            }
        }
    }

    /// Where `name` stands in a well-formed map, or would stand: what
    /// `search` returns, as a specification.
    pub open spec fn search_spec(&self, name: Seq<char>) -> Result<int, int> {
        if self.names().contains(name) {
            Ok(self.names().index_of(name))
        } else {
            Err(self.rank(name, self.names().len() as int))
        }
    }

    /// How many of the first `n` names come before `name`.
    pub open spec fn rank(&self, name: Seq<char>, n: int) -> int
        decreases n,
    {
        if n <= 0 {
            0
        } else if name_lt(self.names()[n - 1], name) {
            self.rank(name, n - 1) + 1
        } else {
            self.rank(name, n - 1)
        }
    }

    /// In a well-formed map, a position with all earlier names before
    /// `name` and all later names after it is the rank of `name`.
    pub proof fn lemma_rank(&self, name: Seq<char>, i: int, n: int)
        requires
            0 <= i <= self.names().len(),
            0 <= n <= self.names().len(),
            forall|j: int| 0 <= j < i ==> name_lt(#[trigger] self.names()[j], name),
            forall|j: int| i <= j < self.names().len() ==> !name_lt(#[trigger] self.names()[j], name),
        ensures
            self.rank(name, n) == if n <= i {
                n
            } else {
                i
            },
        decreases n,
    {
        if n > 0 {
            self.lemma_rank(name, i, n - 1);
        }
    }

    /// The position that `search_spec` gives lies within the map, or just
    /// behind it.
    pub proof fn lemma_search_spec_cases(&self, name: Seq<char>)
        ensures
            match self.search_spec(name) {
                Ok(i) => 0 <= i < self.names().len() && self.names()[i] == name,
                Err(i) => 0 <= i <= self.names().len() && !self.names().contains(name),
            },
    {
        if !self.names().contains(name) {
            self.lemma_rank_bounds(name, self.names().len() as int);
        }
    }

    /// The rank of a name among the first `n` names is at most `n`.
    pub proof fn lemma_rank_bounds(&self, name: Seq<char>, n: int)
        requires
            0 <= n,
        ensures
            0 <= self.rank(name, n) <= n,
        decreases n,
    {
        if n > 0 {
            self.lemma_rank_bounds(name, n - 1);
        }
    }

    /// What `search` returns is what `search_spec` says.
    pub proof fn lemma_search_spec(&self, name: Seq<char>, found: Result<usize, usize>)
        requires
            self.wf(),
            match found {
                Ok(i) => i < self.entries().len() && self.names()[i as int] == name,
                Err(i) => {
                    &&& i <= self.entries().len()
                    &&& !self.names().contains(name)
                    &&& forall|j: int| 0 <= j < i ==> name_lt(#[trigger] self.names()[j], name)
                    &&& forall|j: int|
                        i <= j < self.entries().len() ==> name_lt(name, #[trigger] self.names()[j])
                },
            },
        ensures
            match found {
                Ok(i) => self.search_spec(name) == Ok::<int, int>(i as int),
                Err(i) => self.search_spec(name) == Err::<int, int>(i as int),
            },
    {
        match found {
            Ok(i) => {
                self.lemma_index_of(i as int);
            },
            Err(i) => {
                assert forall|j: int| i <= j < self.names().len() implies !name_lt(
                    #[trigger] self.names()[j],
                    name,
                ) by {
                    lemma_name_trichotomy(self.names()[j], name);
                }
                self.lemma_rank(name, i as int, self.names().len() as int);
            },
        }
    }
}

} // verus!
