//! Small tables that are searched by a key.

use vstd::prelude::*;

use crate::list;
use crate::text;

verus! {

/// What an entry can be found by: two keys are the same where their views agree.
pub trait Key: View {
    fn same(&self, other: &Self) -> (r: bool)
        ensures
            r == (self@ == other@),
    ;
}

impl Key for String {
    fn same(&self, other: &Self) -> (r: bool) {
        text::text_eq(self.as_str(), other.as_str())
    }
}

impl Key for u128 {
    fn same(&self, other: &Self) -> (r: bool) {
        *self == *other
    }
}

impl Key for u64 {
    fn same(&self, other: &Self) -> (r: bool) {
        *self == *other
    }
}

#[derive(Debug)]
pub struct Entry<K, V> {
    pub key: K,
    pub value: V,
}

/// Entries with distinct keys.
#[derive(Debug)]
pub struct Table<K: Key, V> {
    entries: Vec<Entry<K, V>>,
}

pub open spec fn entry_keys<K: Key, V>(entries: Seq<Entry<K, V>>) -> Seq<K::V> {
    entries.map_values(|e: Entry<K, V>| e.key@)
}

pub open spec fn entry_map<K: Key, V>(entries: Seq<Entry<K, V>>) -> Map<K::V, V> {
    Map::new(
        |key: K::V| entry_keys(entries).contains(key),
        |key: K::V| entries[list::position(entry_keys(entries), key)].value,
    )
}

impl<K: Key, V> View for Table<K, V> {
    type V = Map<K::V, V>;

    closed spec fn view(&self) -> Map<K::V, V> {
        entry_map(self.entries@)
    }
}

impl<K: Key, V> Table<K, V> {
    #[verifier::type_invariant]
    spec fn keys_differ(self) -> bool {
        list::distinct(entry_keys(self.entries@))
    }

    pub fn new() -> (r: Self)
        ensures
            r@ == Map::<K::V, V>::empty(),
    {
        let table = Table { entries: Vec::new() };
        assert(table@ =~= Map::<K::V, V>::empty());
        table
    }

    fn find(&self, key: &K) -> (r: usize)
        ensures
            r == list::position(entry_keys(self.entries@), key@),
            r <= self.entries@.len(),
            (r < self.entries@.len()) == self@.contains_key(key@),
            r < self.entries@.len() ==> self@[key@] == self.entries@[r as int].value
                && self.entries@[r as int].key@ == key@,
    {
        let ghost keys = entry_keys(self.entries@);
        proof {
            list::lemma_position(keys, key@);
        }
        let mut i: usize = 0;
        while i < self.entries.len()
            invariant
                i <= self.entries@.len(),
                keys == entry_keys(self.entries@),
                forall|j: int| 0 <= j < i ==> keys[j] != key@,
                (list::position(keys, key@) < keys.len()) == keys.contains(key@),
            decreases self.entries@.len() - i,
        {
            if self.entries[i].key.same(key) {
                proof {
                    list::lemma_position_found(keys, key@, i as int);
                }
                return i;
            }
            i += 1;
        }
        proof {
            list::lemma_position_missing(keys, key@);
        }
        i
    }

    pub fn len(&self) -> (r: usize)
        ensures
            r == self@.dom().len(),
            self@.dom().finite(),
    {
        proof {
            use_type_invariant(&*self);
            let keys = entry_keys(self.entries@);
            assert(keys.no_duplicates());
            keys.unique_seq_to_set();
            assert(self@.dom() =~= keys.to_set());
        }
        self.entries.len()
    }

    pub fn contains(&self, key: &K) -> (r: bool)
        ensures
            r == self@.contains_key(key@),
    {
        self.find(key) < self.entries.len()
    }

    pub fn get(&self, key: &K) -> (r: Option<&V>)
        ensures
            match r {
                Some(value) => self@.contains_key(key@) && *value == self@[key@],
                None => !self@.contains_key(key@),
            },
    {
        let at = self.find(key);
        if at < self.entries.len() {
            Some(&self.entries[at].value)
        } else {
            None
        }
    }

    /// Sets the value of a key and returns the one it had.
    pub fn insert(&mut self, key: K, value: V) -> (r: Option<V>)
        ensures
            final(self)@ == old(self)@.insert(key@, value),
            r == if old(self)@.contains_key(key@) {
                Some(old(self)@[key@])
            } else {
                None::<V>
            },
    {
        proof {
            use_type_invariant(&*self);
        }
        let ghost entries = self.entries@;
        let ghost keys = entry_keys(entries);
        let ghost added = key@;
        let at = self.find(&key);
        let mut stored: Vec<Entry<K, V>> = Vec::new();
        core::mem::swap(&mut self.entries, &mut stored);
        let previous = if at < stored.len() {
            let removed = stored.swap_remove(at);
            Some(removed.value)
        } else {
            None
        };
        let ghost rest = stored@;
        stored.push(Entry { key, value });
        proof {
            if at < entries.len() {
                lemma_swap_removed(entries, at as int, rest);
            } else {
                assert(rest == entries);
                list::lemma_position(keys, added);
                assert(entry_map(entries).remove(added) =~= entry_map(entries));
            }
            lemma_pushed(rest, stored@.last());
            assert(stored@ =~= rest.push(stored@.last()));
            assert(entry_map(entries).remove(added).insert(added, value) =~= entry_map(
                entries,
            ).insert(added, value));
        }
        core::mem::swap(&mut self.entries, &mut stored);
        previous
    }

    /// Removes a key and returns the value it had.
    pub fn remove(&mut self, key: &K) -> (r: Option<V>)
        ensures
            final(self)@ == old(self)@.remove(key@),
            r == if old(self)@.contains_key(key@) {
                Some(old(self)@[key@])
            } else {
                None::<V>
            },
    {
        proof {
            use_type_invariant(&*self);
        }
        let ghost entries = self.entries@;
        let at = self.find(key);
        if at >= self.entries.len() {
            assert(self@.remove(key@) =~= self@);
            return None;
        }
        let mut stored: Vec<Entry<K, V>> = Vec::new();
        core::mem::swap(&mut self.entries, &mut stored);
        let removed = stored.swap_remove(at);
        proof {
            lemma_swap_removed(entries, at as int, stored@);
        }
        core::mem::swap(&mut self.entries, &mut stored);
        Some(removed.value)
    }

    /// Removes every entry and returns them.
    pub fn drain(&mut self) -> (r: Vec<Entry<K, V>>)
        ensures
            final(self)@ == Map::<K::V, V>::empty(),
            entry_map(r@) == old(self)@,
            list::distinct(entry_keys(r@)),
    {
        proof {
            use_type_invariant(&*self);
        }
        let mut stored: Vec<Entry<K, V>> = Vec::new();
        core::mem::swap(&mut self.entries, &mut stored);
        assert(self@ =~= Map::<K::V, V>::empty());
        stored
    }

    /// The entries, in no particular order.
    pub fn entries(&self) -> (r: &Vec<Entry<K, V>>)
        ensures
            entry_map(r@) == self@,
            list::distinct(entry_keys(r@)),
    {
        proof {
            use_type_invariant(&*self);
        }
        &self.entries
    }
}

pub open spec fn key_views<K: Key>(keys: Seq<K>) -> Seq<K::V> {
    keys.map_values(|k: K| k@)
}

/// Whether a key stands in a list.
pub fn holds_key<K: Key>(keys: &Vec<K>, key: &K) -> (r: bool)
    ensures
        r == key_views(keys@).contains(key@),
{
    let ghost views = key_views(keys@);
    let mut i: usize = 0;
    while i < keys.len()
        invariant
            i <= keys@.len(),
            views == key_views(keys@),
            forall|j: int| 0 <= j < i ==> views[j] != key@,
        decreases keys@.len() - i,
    {
        assert(views[i as int] == keys@[i as int]@);
        if keys[i].same(key) {
            return true;
        }
        i += 1;
    }
    false
}

/// What is left of a map with the keys of a list alone.
pub open spec fn only_keys<T, V>(map: Map<T, V>, keys: Seq<T>) -> Map<T, V> {
    map.restrict(Set::new(|key: T| map.contains_key(key) && keys.contains(key)))
}

impl<K: Key, V> Table<K, V> {
    /// Removes every key that does not stand in a list.
    pub fn retain_keys(&mut self, keys: &Vec<K>)
        ensures
            final(self)@ == only_keys(old(self)@, key_views(keys@)),
    {
        let ghost before = self@;
        let ghost target = only_keys(before, key_views(keys@));
        let mut entries = self.drain();
        while entries.len() > 0
            invariant
                target == only_keys(before, key_views(keys@)),
                list::distinct(entry_keys(entries@)),
                forall|key: K::V| #[trigger]
                    self@.contains_key(key) ==> target.contains_key(key) && self@[key]
                        == target[key],
                forall|key: K::V| #[trigger]
                    entry_map(entries@).contains_key(key) ==> before.contains_key(key)
                        && entry_map(entries@)[key] == before[key],
                forall|key: K::V| #[trigger]
                    target.contains_key(key) ==> self@.contains_key(key) || entry_map(
                        entries@,
                    ).contains_key(key),
            decreases entries@.len(),
        {
            let ghost all = entries@;
            if let Some(entry) = entries.pop() {
                proof {
                    lemma_popped(all);
                    assert(entries@ == all.drop_last());
                    assert(entry_map(all).contains_key(entry.key@));
                    assert forall|key: K::V| #[trigger]
                        entry_map(entries@).contains_key(key) implies before.contains_key(key)
                        && entry_map(entries@)[key] == before[key] by {
                        assert(entry_map(all).contains_key(key));
                    }
                }
                if holds_key(keys, &entry.key) {
                    let _ = self.insert(entry.key, entry.value);
                }
            }
        }
        assert(entry_keys(entries@) =~= Seq::empty());
        assert(self@ =~= target);
    }
}

/// What is left of a map without the keys of a value.
pub open spec fn without_value<T>(map: Map<T, u128>, value: u128) -> Map<T, u128> {
    map.restrict(Set::new(|key: T| map.contains_key(key) && map[key] != value))
}

impl<K: Key> Table<K, u128> {
    /// Removes every key of a value.
    pub fn remove_value(&mut self, value: u128)
        ensures
            final(self)@ == without_value(old(self)@, value),
    {
        let ghost before = self@;
        let ghost target = without_value(before, value);
        let mut entries = self.drain();
        while entries.len() > 0
            invariant
                target == without_value(before, value),
                list::distinct(entry_keys(entries@)),
                forall|key: K::V| #[trigger]
                    self@.contains_key(key) ==> target.contains_key(key) && self@[key]
                        == target[key],
                forall|key: K::V| #[trigger]
                    entry_map(entries@).contains_key(key) ==> before.contains_key(key)
                        && entry_map(entries@)[key] == before[key],
                forall|key: K::V| #[trigger]
                    target.contains_key(key) ==> self@.contains_key(key) || entry_map(
                        entries@,
                    ).contains_key(key),
            decreases entries@.len(),
        {
            let ghost all = entries@;
            if let Some(entry) = entries.pop() {
                proof {
                    lemma_popped(all);
                    assert(entries@ == all.drop_last());
                    assert(entry_map(all).contains_key(entry.key@));
                    assert forall|key: K::V| #[trigger]
                        entry_map(entries@).contains_key(key) implies before.contains_key(key)
                        && entry_map(entries@)[key] == before[key] by {
                        assert(entry_map(all).contains_key(key));
                    }
                }
                if entry.value != value {
                    self.insert(entry.key, entry.value);
                }
            }
        }
        assert(entry_keys(entries@) =~= Seq::empty());
        assert(self@ =~= target);
    }
}

proof fn lemma_popped<K: Key, V>(entries: Seq<Entry<K, V>>)
    requires
        list::distinct(entry_keys(entries)),
        entries.len() > 0,
    ensures
        list::distinct(entry_keys(entries.drop_last())),
        entry_map(entries) == entry_map(entries.drop_last()).insert(
            entries.last().key@,
            entries.last().value,
        ),
        !entry_map(entries.drop_last()).contains_key(entries.last().key@),
{
    let rest = entries.drop_last();
    let keys = entry_keys(entries);
    assert(entry_keys(rest) =~= keys.drop_last());
    assert(keys.last() == entries.last().key@);
    assert(rest.push(entries.last()) =~= entries);
    lemma_pushed(rest, entries.last());
}

/// The value that a map of entries holds for the key of one of them.
pub proof fn lemma_entry_found<K: Key, V>(entries: Seq<Entry<K, V>>, i: int)
    requires
        list::distinct(entry_keys(entries)),
        0 <= i < entries.len(),
    ensures
        entry_map(entries).contains_key(entries[i].key@),
        entry_map(entries)[entries[i].key@] == entries[i].value,
{
    let keys = entry_keys(entries);
    assert(keys[i] == entries[i].key@);
    list::lemma_position(keys, keys[i]);
}

proof fn lemma_pushed<K: Key, V>(entries: Seq<Entry<K, V>>, entry: Entry<K, V>)
    requires
        list::distinct(entry_keys(entries)),
        !entry_map(entries).contains_key(entry.key@),
    ensures
        list::distinct(entry_keys(entries.push(entry))),
        entry_map(entries.push(entry)) == entry_map(entries).insert(entry.key@, entry.value),
{
    let after = entries.push(entry);
    let keys = entry_keys(entries);
    let more = entry_keys(after);
    assert(more =~= keys.push(entry.key@));
    assert(more[entries.len() as int] == entry.key@);
    assert forall|i: int, j: int| 0 <= i < j < more.len() implies more[i] != more[j] by {
        if j == entries.len() {
            assert(keys.contains(keys[i]));
        }
    }
    assert forall|key: K::V|
        entry_map(after).contains_key(key) == entry_map(entries).insert(
            entry.key@,
            entry.value,
        ).contains_key(key) by {
        if keys.contains(key) {
            let i = choose|i: int| 0 <= i < keys.len() && keys[i] == key;
            assert(more[i] == key);
        }
    }
    assert forall|key: K::V| entry_map(after).contains_key(key) implies entry_map(after)[key]
        == entry_map(entries).insert(entry.key@, entry.value)[key] by {
        let i = choose|i: int| 0 <= i < more.len() && more[i] == key;
        lemma_entry_found(after, i);
        if i < entries.len() {
            lemma_entry_found(entries, i);
            assert(keys[i] == key);
        }
    }
    assert(entry_map(after) =~= entry_map(entries).insert(entry.key@, entry.value));
}

proof fn lemma_swap_removed<K: Key, V>(entries: Seq<Entry<K, V>>, at: int, rest: Seq<Entry<K, V>>)
    requires
        list::distinct(entry_keys(entries)),
        0 <= at < entries.len(),
        rest == entries.update(at, entries.last()).drop_last(),
    ensures
        list::distinct(entry_keys(rest)),
        entry_map(rest) == entry_map(entries).remove(entries[at].key@),
{
    let keys = entry_keys(entries);
    let fewer = entry_keys(rest);
    let last = entries.len() - 1;
    let from = |i: int| if i == at { last } else { i };
    assert forall|i: int| 0 <= i < rest.len() implies rest[i] == entries[from(i)] && fewer[i]
        == keys[from(i)] by {}
    assert forall|i: int, j: int| 0 <= i < j < fewer.len() implies fewer[i] != fewer[j] by {
        assert(fewer[i] == keys[from(i)] && fewer[j] == keys[from(j)]);
    }
    let target = entry_map(entries).remove(entries[at].key@);
    assert forall|key: K::V| entry_map(rest).contains_key(key) == target.contains_key(key) by {
        if fewer.contains(key) {
            let i = choose|i: int| 0 <= i < fewer.len() && fewer[i] == key;
            assert(keys[from(i)] == key && keys[at] == entries[at].key@);
        }
        if target.contains_key(key) {
            let i = choose|i: int| 0 <= i < keys.len() && keys[i] == key;
            assert(i != at);
            if i == last {
                assert(fewer[at] == key);
            } else {
                assert(fewer[i] == key);
            }
        }
    }
    assert forall|key: K::V| entry_map(rest).contains_key(key) implies entry_map(rest)[key]
        == target[key] by {
        let i = choose|i: int| 0 <= i < fewer.len() && fewer[i] == key;
        lemma_entry_found(rest, i);
        lemma_entry_found(entries, from(i));
        assert(rest[i].key@ == fewer[i] && entries[from(i)].key@ == keys[from(i)]);
        assert(target.contains_key(key));
    }
    assert(entry_map(rest) =~= target);
}

} // verus!
