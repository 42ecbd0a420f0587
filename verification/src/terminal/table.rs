//! A hash map that is walked in a fixed order: the one its keys came in.

use std::collections::HashMap;

use vstd::prelude::*;

verus! {

/// What a table can be keyed by: a value with a number of its own.
pub trait Key: Copy {
    /// The number a key goes by.
    spec fn number(self) -> u64;

    /// Two keys that go by one number are the same.
    proof fn one_number(a: Self, b: Self)
        requires
            a.number() == b.number(),
        ensures
            a == b,
    ;

    /// The number a key goes by.
    fn hashed(&self) -> (n: u64)
        ensures
            n == self.number(),
    ;
}

impl Key for u32 {
    open spec fn number(self) -> u64 {
        self as u64
    }

    proof fn one_number(a: Self, b: Self) {
    }

    fn hashed(&self) -> (n: u64) {
        *self as u64
    }
}

/// A map from keys to values. No key stands in it twice, and a key keeps its
/// place for as long as it stays.
#[derive(Debug)]
pub struct Table<K, V> {
    /// The keys, in the order they came.
    keys: Vec<K>,
    /// The value of each, by the number it goes by.
    values: HashMap<u64, V>,
}

/// Whether `key` is one of the keys of `entries`.
pub open spec fn holds<K, V>(entries: Seq<(K, V)>, key: K) -> bool {
    exists|i: int| 0 <= i < entries.len() && (#[trigger] entries[i]).0 == key
}

/// Where `key` stands in `entries`.
pub open spec fn place_of<K, V>(entries: Seq<(K, V)>, key: K) -> int {
    choose|i: int| 0 <= i < entries.len() && (#[trigger] entries[i]).0 == key
}

/// No key stands twice in `entries`.
pub open spec fn distinct<K, V>(entries: Seq<(K, V)>) -> bool {
    forall|i: int, j: int|
        0 <= i < j < entries.len() ==> (#[trigger] entries[i]).0 != (#[trigger] entries[j]).0
}

/// The map that `entries` list.
pub open spec fn mapped<K, V>(entries: Seq<(K, V)>) -> Map<K, V> {
    Map::new(|key: K| holds(entries, key), |key: K| entries[place_of(entries, key)].1)
}

/// An entry of a list without repeats is what the map gives for its key.
pub proof fn lemma_entry<K, V>(entries: Seq<(K, V)>, i: int)
    requires
        distinct(entries),
        0 <= i < entries.len(),
    ensures
        mapped(entries).contains_key(entries[i].0),
        mapped(entries)[entries[i].0] == entries[i].1,
        place_of(entries, entries[i].0) == i,
{
    let at = place_of(entries, entries[i].0);
    assert(0 <= at < entries.len() && entries[at].0 == entries[i].0);
    if at < i {
        assert(entries[at].0 != entries[i].0);
    } else if i < at {
        assert(entries[i].0 != entries[at].0);
    }
}

impl<K: Key, V> View for Table<K, V> {
    type V = Map<K, V>;

    closed spec fn view(&self) -> Map<K, V> {
        mapped(listed(self.keys@, self.values@))
    }
}

/// The keys of a table, each with its value.
spec fn listed<K: Key, V>(keys: Seq<K>, values: Map<u64, V>) -> Seq<(K, V)> {
    Seq::new(keys.len(), |i: int| (keys[i], values[keys[i].number()]))
}

impl<K: Key, V: Copy> Table<K, V> {
    /// The entries, in the order their keys came.
    pub closed spec fn list(&self) -> Seq<(K, V)> {
        listed(self.keys@, self.values@)
    }

    pub closed spec fn wf(&self) -> bool {
        &&& distinct(self.list())
        &&& forall|i: int|
            0 <= i < self.keys@.len() ==> self.values@.contains_key(
                (#[trigger] self.keys@[i]).number(),
            )
        &&& forall|n: u64| #[trigger]
            self.values@.contains_key(n) ==> exists|i: int|
                0 <= i < self.keys@.len() && (#[trigger] self.keys@[i]).number() == n
    }

    /// What the list of a table says of its map.
    pub proof fn lemma_list(&self)
        requires
            self.wf(),
        ensures
            distinct(self.list()),
            self@ == mapped(self.list()),
    {
    }

    /// A key has a value where it stands in the list.
    proof fn lemma_holds(&self, key: K)
        requires
            self.wf(),
        ensures
            self@.contains_key(key) <==> self.values@.contains_key(key.number()),
            self@.contains_key(key) ==> self@[key] == self.values@[key.number()],
            self@.contains_key(key) <==> holds(self.list(), key),
    {
        let entries = self.list();
        if holds(entries, key) {
            let i = place_of(entries, key);
            assert(entries[i].0 == self.keys@[i]);
            lemma_entry(entries, i);
        }
        if self.values@.contains_key(key.number()) {
            let i = choose|i: int|
                0 <= i < self.keys@.len() && (#[trigger] self.keys@[i]).number() == key.number();
            K::one_number(self.keys@[i], key);
            assert(entries[i].0 == key);
        }
    }

    pub fn new() -> (table: Table<K, V>)
        ensures
            table.wf(),
            table@ == Map::<K, V>::empty(),
            table.list() == Seq::<(K, V)>::empty(),
    {
        let table = Table { keys: Vec::new(), values: HashMap::new() };
        assert(table@ =~= Map::<K, V>::empty());
        assert(table.list() =~= Seq::<(K, V)>::empty());
        table
    }

    pub fn len(&self) -> (n: usize)
        ensures
            n == self.list().len(),
    {
        self.keys.len()
    }

    /// The entry at a place in the order.
    pub fn entry(&self, i: usize) -> (entry: (K, V))
        requires
            self.wf(),
            i < self.list().len(),
        ensures
            entry == self.list()[i as int],
            self@.contains_key(entry.0),
            self@[entry.0] == entry.1,
    {
        broadcast use vstd::std_specs::hash::group_hash_axioms;

        proof {
            lemma_entry(self.list(), i as int);
        }
        let key = self.keys[i];
        (key, *self.values.get(&key.hashed()).unwrap())
    }

    pub fn contains(&self, key: K) -> (yes: bool)
        requires
            self.wf(),
        ensures
            yes == self@.contains_key(key),
    {
        broadcast use vstd::std_specs::hash::group_hash_axioms;

        proof {
            self.lemma_holds(key);
        }
        self.values.contains_key(&key.hashed())
    }

    pub fn get(&self, key: K) -> (value: Option<V>)
        requires
            self.wf(),
        ensures
            value is Some <==> self@.contains_key(key),
            value is Some ==> value->0 == self@[key],
    {
        broadcast use vstd::std_specs::hash::group_hash_axioms;

        proof {
            self.lemma_holds(key);
        }
        match self.values.get(&key.hashed()) {
            Some(value) => Some(*value),
            None => None,
        }
    }

    pub fn insert(&mut self, key: K, value: V)
        requires
            old(self).wf(),
        ensures
            final(self).wf(),
            final(self)@ == old(self)@.insert(key, value),
            !old(self)@.contains_key(key) ==> final(self).list() == old(self).list().push(
                (key, value),
            ),
    {
        broadcast use vstd::std_specs::hash::group_hash_axioms;

        let ghost before = self.list();
        proof {
            self.lemma_holds(key);
        }
        let number = key.hashed();
        if self.values.contains_key(&number) {
            let ghost i = place_of(before, key);
            self.values.insert(number, value);
            proof {
                let after = self.list();
                assert forall|j: int| 0 <= j < after.len() && j != i implies #[trigger] after[j]
                    == before[j] by {
                    if self.keys@[j].number() == number {
                        K::one_number(self.keys@[j], key);
                        assert(before[j].0 == key);
                        lemma_entry(before, j);
                    }
                }
                assert(before[i].0 == self.keys@[i]);
                assert(after =~= before.update(i, (key, value)));
                lemma_set(before, i, value);
                assert(self@ =~= old(self)@.insert(key, value));
            }
        } else {
            self.values.insert(number, value);
            self.keys.push(key);
            proof {
                let after = self.list();
                assert forall|j: int| 0 <= j < before.len() implies #[trigger] after[j]
                    == before[j] by {
                    assert(self.keys@[j] == old(self).keys@[j]);
                    assert(old(self).values@.contains_key(old(self).keys@[j].number()));
                }
                assert(after =~= before.push((key, value)));
                lemma_added(before, key, value);
                assert(self@ =~= old(self)@.insert(key, value));
                assert forall|n: u64| #[trigger] self.values@.contains_key(n) implies exists|j: int|
                    0 <= j < self.keys@.len() && (#[trigger] self.keys@[j]).number() == n by {
                    if n == number {
                        assert(self.keys@[before.len() as int].number() == n);
                    } else {
                        assert(old(self).values@.contains_key(n));
                        let j = choose|j: int|
                            0 <= j < old(self).keys@.len() && (
                            #[trigger] old(self).keys@[j]).number() == n;
                        assert(self.keys@[j].number() == n);
                    }
                }
            }
        }
    }

    /// Takes the entry at a place in the order away.
    pub fn remove_at(&mut self, i: usize) -> (entry: (K, V))
        requires
            old(self).wf(),
            i < old(self).list().len(),
        ensures
            final(self).wf(),
            entry == old(self).list()[i as int],
            final(self)@ == old(self)@.remove(entry.0),
            final(self).list() == old(self).list().remove(i as int),
            old(self)@.contains_key(entry.0),
            old(self)@[entry.0] == entry.1,
    {
        broadcast use vstd::std_specs::hash::group_hash_axioms;

        let ghost before = self.list();
        proof {
            lemma_entry(before, i as int);
        }
        let key = self.keys.remove(i);
        let number = key.hashed();
        let value = self.values.remove(&number).unwrap();
        proof {
            let after = self.list();
            assert forall|j: int| 0 <= j < after.len() implies #[trigger] after[j] == before.remove(
                i as int,
            )[j] && self.keys@[j].number() != number by {
                let from = if j < i {
                    j
                } else {
                    j + 1
                };
                assert(self.keys@[j] == old(self).keys@[from]);
                assert(before[from].0 == old(self).keys@[from]);
                if self.keys@[j].number() == number {
                    K::one_number(self.keys@[j], key);
                    assert(before[i as int].0 == key);
                    lemma_entry(before, from);
                }
            }
            assert(after =~= before.remove(i as int));
            lemma_removed(before, i as int);
            assert(self@ =~= old(self)@.remove(key));
            assert forall|j: int| 0 <= j < self.keys@.len() implies self.values@.contains_key(
                (#[trigger] self.keys@[j]).number(),
            ) by {
                assert(after[j] == before.remove(i as int)[j]);
                let from = if j < i {
                    j
                } else {
                    j + 1
                };
                assert(self.keys@[j] == old(self).keys@[from]);
            }
            assert forall|n: u64| #[trigger] self.values@.contains_key(n) implies exists|j: int|
                0 <= j < self.keys@.len() && (#[trigger] self.keys@[j]).number() == n by {
                assert(old(self).values@.contains_key(n));
                let from = choose|j: int|
                    0 <= j < old(self).keys@.len() && (#[trigger] old(self).keys@[j]).number() == n;
                let j = if from < i {
                    from
                } else {
                    from - 1
                };
                assert(from != i);
                assert(self.keys@[j].number() == n);
            }
        }
        (key, value)
    }

    pub fn remove(&mut self, key: K) -> (value: Option<V>)
        requires
            old(self).wf(),
        ensures
            final(self).wf(),
            final(self)@ == old(self)@.remove(key),
            value is Some <==> old(self)@.contains_key(key),
            value is Some ==> value->0 == old(self)@[key],
            value is None ==> final(self).list() == old(self).list(),
            value is Some ==> final(self).list().len() + 1 == old(self).list().len(),
    {
        if !self.contains(key) {
            assert(self@ =~= old(self)@.remove(key));
            return None;
        }
        let mut i: usize = 0;
        while i < self.keys.len()
            invariant
                *self == *old(self),
                self.wf(),
                self@.contains_key(key),
                i <= self.keys@.len(),
                forall|j: int| 0 <= j < i ==> (#[trigger] self.keys@[j]) != key,
            decreases self.keys@.len() - i,
        {
            if self.keys[i].hashed() == key.hashed() {
                proof {
                    K::one_number(self.keys@[i as int], key);
                }
                let (_, value) = self.remove_at(i);
                return Some(value);
            }
            i = i + 1;
        }
        proof {
            self.lemma_holds(key);
            let at = place_of(self.list(), key);
            assert(self.list()[at].0 == self.keys@[at]);
        }
        None
    }

    /// The same entries in a table of its own.
    pub fn copy(&self) -> (table: Table<K, V>)
        requires
            self.wf(),
        ensures
            table.wf(),
            table@ == self@,
            table.list() == self.list(),
    {
        let mut table: Table<K, V> = Table::new();
        let mut i: usize = 0;
        assert(self.list().subrange(0, 0) =~= Seq::empty());
        while i < self.len()
            invariant
                self.wf(),
                table.wf(),
                i <= self.list().len(),
                table.list() == self.list().subrange(0, i as int),
            decreases self.list().len() - i,
        {
            let (key, value) = self.entry(i);
            proof {
                table.lemma_holds(key);
                if holds(table.list(), key) {
                    let j = place_of(table.list(), key);
                    assert(self.list()[j].0 == key);
                }
            }
            table.insert(key, value);
            i = i + 1;
            assert(table.list() =~= self.list().subrange(0, i as int));
        }
        assert(table.list() =~= self.list());
        table
    }
}

/// A value put in the place of another is what the map gives for its key.
proof fn lemma_set<K, V>(before: Seq<(K, V)>, i: int, value: V)
    requires
        distinct(before),
        0 <= i < before.len(),
    ensures
        distinct(before.update(i, (before[i].0, value))),
        mapped(before.update(i, (before[i].0, value))) == mapped(before).insert(before[i].0, value),
{
    let key = before[i].0;
    let after = before.update(i, (key, value));
    assert(distinct(after)) by {
        assert forall|a: int, b: int| 0 <= a < b < after.len() implies (#[trigger] after[a]).0 != (
        #[trigger] after[b]).0 by {
            assert(before[a].0 != before[b].0);
        }
    }
    lemma_entry(after, i);
    assert forall|k: K| #[trigger] holds(after, k) == (holds(before, k) || k == key) by {
        if holds(after, k) {
            let j = place_of(after, k);
            assert(before[j].0 == after[j].0);
        }
        if holds(before, k) {
            let j = place_of(before, k);
            assert(after[j].0 == before[j].0);
        }
    }
    assert forall|k: K| holds(before, k) && k != key implies #[trigger] mapped(after)[k] == mapped(
        before,
    )[k] by {
        let j = place_of(before, k);
        lemma_entry(before, j);
        assert(after[j] == before[j]);
        lemma_entry(after, j);
    }
    assert(mapped(after) =~= mapped(before).insert(key, value));
}

/// A key that is new comes last, and is given its value by the map.
proof fn lemma_added<K, V>(before: Seq<(K, V)>, key: K, value: V)
    requires
        distinct(before),
        !holds(before, key),
    ensures
        distinct(before.push((key, value))),
        mapped(before.push((key, value))) == mapped(before).insert(key, value),
{
    let after = before.push((key, value));
    assert(distinct(after)) by {
        assert forall|a: int, b: int| 0 <= a < b < after.len() implies (#[trigger] after[a]).0 != (
        #[trigger] after[b]).0 by {
            assert(after[a] == before[a]);
            if b < before.len() {
                assert(after[b] == before[b]);
            }
        }
    }
    lemma_entry(after, before.len() as int);
    assert forall|k: K| #[trigger] holds(after, k) == (holds(before, k) || k == key) by {
        if holds(after, k) && k != key {
            let j = place_of(after, k);
            assert(before[j] == after[j]);
        }
        if holds(before, k) {
            let j = place_of(before, k);
            assert(after[j] == before[j]);
        }
    }
    assert forall|k: K| holds(before, k) implies #[trigger] mapped(after)[k] == mapped(
        before,
    )[k] by {
        let j = place_of(before, k);
        lemma_entry(before, j);
        assert(after[j] == before[j]);
        lemma_entry(after, j);
    }
    assert(mapped(after) =~= mapped(before).insert(key, value));
}

/// An entry taken out is gone from the map, and no other is.
proof fn lemma_removed<K, V>(before: Seq<(K, V)>, i: int)
    requires
        distinct(before),
        0 <= i < before.len(),
    ensures
        distinct(before.remove(i)),
        mapped(before.remove(i)) == mapped(before).remove(before[i].0),
{
    let key = before[i].0;
    let after = before.remove(i);
    lemma_entry(before, i);
    assert(distinct(after)) by {
        assert forall|a: int, b: int| 0 <= a < b < after.len() implies (#[trigger] after[a]).0 != (
        #[trigger] after[b]).0 by {
            let from_a = if a < i {
                a
            } else {
                a + 1
            };
            let from_b = if b < i {
                b
            } else {
                b + 1
            };
            assert(after[a] == before[from_a]);
            assert(after[b] == before[from_b]);
        }
    }
    assert forall|k: K| #[trigger] holds(after, k) == (holds(before, k) && k != key) by {
        if holds(after, k) {
            let j = place_of(after, k);
            let from = if j < i {
                j
            } else {
                j + 1
            };
            assert(after[j] == before[from]);
            if k == key {
                lemma_entry(before, from);
            }
        }
        if holds(before, k) && k != key {
            let j = place_of(before, k);
            let to = if j < i {
                j
            } else {
                j - 1
            };
            assert(after[to] == before[j]);
        }
    }
    assert forall|k: K| holds(before, k) && k != key implies #[trigger] mapped(after)[k] == mapped(
        before,
    )[k] by {
        let j = place_of(before, k);
        let to = if j < i {
            j
        } else {
            j - 1
        };
        lemma_entry(before, j);
        assert(after[to] == before[j]);
        lemma_entry(after, to);
    }
    assert(mapped(after) =~= mapped(before).remove(key));
}

} // verus!
