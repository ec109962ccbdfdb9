//! A finite map keyed by instrument name, kept as a list of entries in which
//! no instrument name occurs twice.

use vstd::prelude::*;

use crate::trading::Instrument;

verus! {

/// Entries keyed by instrument; each instrument name appears at most once.
///
/// The map is viewed as a `Map` from instrument names to values.
#[verifier::reject_recursive_types(V)]
#[derive(Debug)]
pub struct InstrumentMap<V> {
    entries: Vec<(Instrument, V)>,
}

/// The names of the keys of `entries`, in the order in which they are stored.
pub open spec fn key_names<V>(entries: Seq<(Instrument, V)>) -> Seq<Seq<char>> {
    entries.map_values(|e: (Instrument, V)| e.0@)
}

/// The map that a list of entries with distinct names stands for.
pub open spec fn entries_map<V>(entries: Seq<(Instrument, V)>) -> Map<Seq<char>, V> {
    Map::new(
        |k: Seq<char>| key_names(entries).contains(k),
        |k: Seq<char>| entries[key_names(entries).index_of(k)].1,
    )
}

/// Where the key named `k` sits in a list of entries with distinct names.
proof fn lemma_index_of_key<V>(entries: Seq<(Instrument, V)>, i: int)
    requires
        key_names(entries).no_duplicates(),
        0 <= i < entries.len(),
    ensures
        key_names(entries).contains(entries[i].0@),
        key_names(entries).index_of(entries[i].0@) == i,
        entries_map(entries).contains_key(entries[i].0@),
        entries_map(entries)[entries[i].0@] == entries[i].1,
{
    let keys = key_names(entries);
    assert(keys[i] == entries[i].0@);
    assert(keys.contains(entries[i].0@));
    let j = keys.index_of(entries[i].0@);
    assert(keys[j] == entries[i].0@);
}

/// A list of entries with distinct names has one map key per entry.
proof fn lemma_entries_map_len<V>(entries: Seq<(Instrument, V)>)
    requires
        key_names(entries).no_duplicates(),
    ensures
        entries_map(entries).dom().finite(),
        entries_map(entries).len() == entries.len(),
{
    let keys = key_names(entries);
    keys.unique_seq_to_set();
    assert(entries_map(entries).dom() =~= keys.to_set());
    vstd::seq_lib::seq_to_set_is_finite(keys);
}

/// Replacing the entry whose name is `k` stores the new value under `k`.
proof fn lemma_replace_entry<V>(
    before: Seq<(Instrument, V)>,
    i: int,
    k: Seq<char>,
    v: V,
    after: Seq<(Instrument, V)>,
)
    requires
        key_names(before).no_duplicates(),
        0 <= i < before.len(),
        before[i].0@ == k,
        after.len() == before.len(),
        after[i].0@ == k,
        after[i].1 == v,
        forall|j: int| 0 <= j < before.len() && j != i ==> after[j] == before[j],
    ensures
        key_names(after).no_duplicates(),
        entries_map(after) =~= entries_map(before).insert(k, v),
{
    assert(key_names(after) =~= key_names(before));
    let old_map = entries_map(before);
    let new_map = entries_map(after);
    assert forall|x: Seq<char>| new_map.contains_key(x) <==> old_map.insert(k, v).contains_key(
        x,
    ) by {
        lemma_index_of_key(before, i);
    }
    assert forall|x: Seq<char>| #[trigger] new_map.contains_key(x) implies new_map[x]
        == old_map.insert(k, v)[x] by {
        let keys = key_names(after);
        let j = keys.index_of(x);
        assert(keys[j] == x);
        lemma_index_of_key(after, j);
        lemma_index_of_key(before, j);
        lemma_index_of_key(before, i);
        if j != i {
            assert(keys[i] == k);
            assert(x != k);
            assert(old_map.contains_key(x));
            assert(old_map.insert(k, v)[x] == old_map[x]);
        }
    }
}

/// Appending an entry under a new name `k` stores `v` under `k`.
proof fn lemma_append_entry<V>(
    before: Seq<(Instrument, V)>,
    k: Seq<char>,
    v: V,
    after: Seq<(Instrument, V)>,
)
    requires
        key_names(before).no_duplicates(),
        !entries_map(before).contains_key(k),
        after.len() == before.len() + 1,
        after[before.len() as int].0@ == k,
        after[before.len() as int].1 == v,
        forall|j: int| 0 <= j < before.len() ==> after[j] == before[j],
    ensures
        key_names(after).no_duplicates(),
        entries_map(after) =~= entries_map(before).insert(k, v),
{
    let keys = key_names(after);
    let old_keys = key_names(before);
    let n = before.len() as int;
    assert(keys =~= old_keys.push(k));
    assert forall|a: int, b: int| 0 <= a < keys.len() && 0 <= b < keys.len() && a != b implies keys[a]
        != keys[b] by {
        if a == n {
            assert(old_keys[b] == keys[b]);
        } else if b == n {
            assert(old_keys[a] == keys[a]);
        }
    }
    let old_map = entries_map(before);
    let new_map = entries_map(after);
    assert forall|x: Seq<char>| new_map.contains_key(x) <==> old_map.insert(k, v).contains_key(
        x,
    ) by {
        if old_keys.contains(x) {
            let j = old_keys.index_of(x);
            assert(keys[j] == x);
        }
        if keys.contains(x) {
            let j = keys.index_of(x);
            if j < n {
                assert(old_keys[j] == x);
            }
        }
        assert(keys[n] == k);
    }
    assert forall|x: Seq<char>| #[trigger] new_map.contains_key(x) implies new_map[x]
        == old_map.insert(k, v)[x] by {
        let j = keys.index_of(x);
        assert(keys[j] == x);
        lemma_index_of_key(after, j);
        if j < n {
            lemma_index_of_key(before, j);
        }
    }
}

impl<V> InstrumentMap<V> {
    #[verifier::type_invariant]
    spec fn names_distinct(self) -> bool {
        key_names(self.entries@).no_duplicates()
    }

    /// An empty map.
    pub fn new() -> (r: Self)
        ensures
            r@ == Map::<Seq<char>, V>::empty(),
    {
        let r = InstrumentMap { entries: Vec::new() };
        assert(r@ =~= Map::<Seq<char>, V>::empty());
        r
    }

    /// The number of instruments in the map.
    pub fn len(&self) -> (r: usize)
        ensures
            r == self@.len(),
            self@.dom().finite(),
    {
        proof {
            use_type_invariant(self);
            lemma_entries_map_len(self.entries@);
        }
        self.entries.len()
    }

    /// The position in `entries` of the entry for `key`, if there is one.
    fn find(&self, key: &Instrument) -> (r: Option<usize>)
        ensures
            match r {
                Some(i) => i < self.entries@.len() && self.entries@[i as int].0@ == key@,
                None => !self@.contains_key(key@),
            },
    {
        let n = self.entries.len();
        let mut i: usize = 0;
        while i < n
            invariant
                n == self.entries@.len(),
                0 <= i <= n,
                forall|j: int| 0 <= j < i ==> self.entries@[j].0@ != key@,
            decreases n - i,
        {
            if self.entries[i].0 == *key {
                return Some(i);
            }
            i = i + 1;
        }
        proof {
            let keys = key_names(self.entries@);
            assert forall|j: int| 0 <= j < keys.len() implies keys[j] != key@ by {
                assert(keys[j] == self.entries@[j].0@);
            }
        }
        None
    }

    /// The value stored for `key`, if any.
    pub fn get(&self, key: &Instrument) -> (r: Option<&V>)
        ensures
            match r {
                Some(v) => self@.contains_key(key@) && *v == self@[key@],
                None => !self@.contains_key(key@),
            },
    {
        proof {
            use_type_invariant(self);
        }
        match self.find(key) {
            Some(i) => {
                proof {
                    lemma_index_of_key(self.entries@, i as int);
                }
                Some(&self.entries[i].1)
            },
            None => None,
        }
    }

    /// Stores `value` for `key`, replacing what was stored for that name before.
    pub fn insert(&mut self, key: Instrument, value: V)
        ensures
            final(self)@ == old(self)@.insert(key@, value),
    {
        proof {
            use_type_invariant(&*self);
        }
        let found = self.find(&key);
        let mut entries: Vec<(Instrument, V)> = Vec::new();
        std::mem::swap(&mut entries, &mut self.entries);
        let ghost before = entries@;
        let ghost key_name = key@;
        match found {
            Some(i) => {
                entries.set(i, (key, value));
                proof {
                    lemma_replace_entry(before, i as int, key_name, value, entries@);
                }
            },
            None => {
                entries.push((key, value));
                proof {
                    lemma_append_entry(before, key_name, value, entries@);
                }
            },
        }
        self.entries = entries;
    }

    /// Removes every entry.
    pub fn clear(&mut self)
        ensures
            final(self)@ == Map::<Seq<char>, V>::empty(),
    {
        self.entries = Vec::new();
        assert(self@ =~= Map::<Seq<char>, V>::empty());
    }
}

impl<V: Clone> InstrumentMap<V> {
    /// A copy of the stored entries, in the order in which they are kept.
    fn copy_entries(&self) -> (r: Vec<(Instrument, V)>)
        ensures
            r@.len() == self.entries@.len(),
            forall|j: int| 0 <= j < r@.len() ==> #[trigger] r@[j].0 == self.entries@[j].0,
            forall|j: int| 0 <= j < r@.len() ==> cloned::<V>(self.entries@[j].1, #[trigger] r@[j].1),
    {
        let n = self.entries.len();
        let mut entries: Vec<(Instrument, V)> = Vec::new();
        let mut i: usize = 0;
        while i < n
            invariant
                n == self.entries@.len(),
                0 <= i <= n,
                entries@.len() == i,
                forall|j: int| 0 <= j < i ==> #[trigger] entries@[j].0 == self.entries@[j].0,
                forall|j: int| 0 <= j < i ==> cloned::<V>(self.entries@[j].1, #[trigger] entries@[j].1),
            decreases n - i,
        {
            let e = &self.entries[i];
            entries.push((e.0.clone(), e.1.clone()));
            i = i + 1;
        }
        entries
    }

    /// Every instrument of the map with a clone of its value, each instrument
    /// once; the order of the list is not fixed.
    pub fn entries(&self) -> (r: Vec<(Instrument, V)>)
        ensures
            r@.len() == self@.len(),
            key_names(r@).no_duplicates(),
            forall|k: Seq<char>| self@.contains_key(k) <==> #[trigger] key_names(r@).contains(k),
            forall|j: int| 0 <= j < r@.len() ==> #[trigger] self@.contains_key(r@[j].0@),
            forall|j: int| 0 <= j < r@.len() ==> cloned::<V>(self@[r@[j].0@], #[trigger] r@[j].1),
    {
        proof {
            use_type_invariant(self);
            lemma_entries_map_len(self.entries@);
        }
        let r = self.copy_entries();
        proof {
            assert(key_names(r@) =~= key_names(self.entries@));
            assert forall|j: int| 0 <= j < r@.len() implies #[trigger] self@.contains_key(r@[j].0@)
                && cloned::<V>(self@[r@[j].0@], r@[j].1) by {
                assert(r@[j].0 == self.entries@[j].0);
                assert(cloned::<V>(self.entries@[j].1, r@[j].1));
                lemma_index_of_key(self.entries@, j);
            }
            assert forall|j: int| 0 <= j < r@.len() implies cloned::<V>(
                self@[r@[j].0@],
                #[trigger] r@[j].1,
            ) by {
                assert(self@.contains_key(r@[j].0@));
            }
        }
        r
    }
}

impl<V: Clone> Clone for InstrumentMap<V> {
    /// The same instruments, each value cloned.
    fn clone(&self) -> (r: Self)
        ensures
            r@.dom() == self@.dom(),
            forall|k: Seq<char>| #[trigger] r@.contains_key(k) ==> cloned::<V>(self@[k], r@[k]),
    {
        proof {
            use_type_invariant(self);
        }
        let entries = self.copy_entries();
        proof {
            assert(key_names(entries@) =~= key_names(self.entries@));
            let keys = key_names(entries@);
            assert forall|k: Seq<char>| #[trigger] entries_map(entries@).contains_key(k) implies cloned::<V>(
                entries_map(self.entries@)[k],
                entries_map(entries@)[k],
            ) by {
                let j = keys.index_of(k);
                assert(keys[j] == k);
                lemma_index_of_key(entries@, j);
                lemma_index_of_key(self.entries@, j);
            }
            assert(entries_map(entries@).dom() =~= entries_map(self.entries@).dom());
        }
        InstrumentMap { entries }
    }
}

impl<V> View for InstrumentMap<V> {
    type V = Map<Seq<char>, V>;

    closed spec fn view(&self) -> Map<Seq<char>, V> {
        entries_map(self.entries@)
    }
}

} // verus!
