//! A map with strings for keys that keeps its entries in the order in which they were added.

use crate::text::same_text;
use vstd::prelude::*;

verus! {

/// A map from strings to `V`.
#[derive(Debug)]
pub struct StringMap<V> {
    entries: Vec<(String, V)>,
}

/// The keys of a list of entries.
spec fn keys_of<V>(entries: Seq<(String, V)>) -> Seq<Seq<char>> {
    Seq::new(entries.len(), |i: int| entries[i].0@)
}

/// The values of a list of entries.
spec fn values_of<V>(entries: Seq<(String, V)>) -> Seq<V> {
    Seq::new(entries.len(), |i: int| entries[i].1)
}

/// The map that sends each of `keys` to the value at the same position.
pub open spec fn zipped<V>(keys: Seq<Seq<char>>, values: Seq<V>) -> Map<Seq<char>, V> {
    Map::new(|k: Seq<char>| keys.contains(k), |k: Seq<char>| values[keys.index_of(k)])
}

impl<V> StringMap<V> {
    /// The keys, in the order in which they were added.
    pub closed spec fn keys(&self) -> Seq<Seq<char>> {
        keys_of(self.entries@)
    }

    /// The values, in the order of the keys.
    pub closed spec fn values(&self) -> Seq<V> {
        values_of(self.entries@)
    }

    /// What holds of the keys and values of every map: no key occurs twice, and there is one value
    /// for each.
    pub open spec fn well_formed(&self) -> bool {
        &&& self.keys().no_duplicates()
        &&& self.values().len() == self.keys().len()
    }

    #[verifier::type_invariant]
    spec fn distinct_keys(self) -> bool {
        keys_of(self.entries@).no_duplicates()
    }
}

impl<V> View for StringMap<V> {
    type V = Map<Seq<char>, V>;

    open spec fn view(&self) -> Map<Seq<char>, V> {
        zipped(self.keys(), self.values())
    }
}

/// In a list without duplicates each element stands at its index.
proof fn lemma_index_of<A>(s: Seq<A>, i: int)
    requires
        s.no_duplicates(),
        0 <= i < s.len(),
    ensures
        s.index_of(s[i]) == i,
{
    let j = s.index_of(s[i]);
    assert(s.contains(s[i]));
}

/// Where a key stands, the map has the value that stands there.
pub proof fn lemma_zipped<V>(keys: Seq<Seq<char>>, values: Seq<V>, i: int)
    requires
        keys.no_duplicates(),
        keys.len() == values.len(),
        0 <= i < keys.len(),
    ensures
        zipped(keys, values).contains_key(keys[i]),
        zipped(keys, values)[keys[i]] == values[i],
{
    lemma_index_of(keys, i);
}

/// Adding an entry at the end inserts it into the map.
proof fn lemma_zipped_push<V>(keys: Seq<Seq<char>>, values: Seq<V>, key: Seq<char>, value: V)
    requires
        keys.no_duplicates(),
        keys.len() == values.len(),
        !keys.contains(key),
    ensures
        keys.push(key).no_duplicates(),
        zipped(keys.push(key), values.push(value)) == zipped(keys, values).insert(key, value),
{
    let all = keys.push(key);
    assert forall|i: int, j: int| 0 <= i < all.len() && 0 <= j < all.len() && i != j implies all[i]
        != all[j] by {
        if i == keys.len() {
            assert(keys.contains(keys[j]));
        } else if j == keys.len() {
            assert(keys.contains(keys[i]));
        }
    }
    let before = zipped(keys, values).insert(key, value);
    let after = zipped(all, values.push(value));
    assert forall|k: Seq<char>| after.contains_key(k) == before.contains_key(k) by {
        if keys.contains(k) {
            let i = keys.index_of(k);
            assert(all[i] == k);
        }
        if k == key {
            assert(all[keys.len() as int] == k);
        }
        if all.contains(k) && k != key {
            let i = all.index_of(k);
            assert(keys[i] == k);
        }
    }
    assert forall|k: Seq<char>| after.contains_key(k) implies after[k] == before[k] by {
        if k == key {
            lemma_index_of(all, keys.len() as int);
        } else {
            let i = all.index_of(k);
            assert(keys[i] == k);
            lemma_index_of(keys, i);
            lemma_index_of(all, i);
        }
    }
    assert(after =~= before);
}

/// Replacing the value at a key's position replaces it in the map.
proof fn lemma_zipped_update<V>(keys: Seq<Seq<char>>, values: Seq<V>, i: int, value: V)
    requires
        keys.no_duplicates(),
        keys.len() == values.len(),
        0 <= i < keys.len(),
    ensures
        zipped(keys, values.update(i, value)) == zipped(keys, values).insert(keys[i], value),
{
    let before = zipped(keys, values).insert(keys[i], value);
    let after = zipped(keys, values.update(i, value));
    assert forall|k: Seq<char>| after.contains_key(k) implies after[k] == before[k] by {
        lemma_index_of(keys, keys.index_of(k));
        lemma_index_of(keys, i);
    }
    assert(after =~= before);
}

/// Taking out the entry at a key's position takes the key out of the map.
proof fn lemma_zipped_remove<V>(keys: Seq<Seq<char>>, values: Seq<V>, i: int)
    requires
        keys.no_duplicates(),
        keys.len() == values.len(),
        0 <= i < keys.len(),
    ensures
        keys.remove(i).no_duplicates(),
        zipped(keys.remove(i), values.remove(i)) == zipped(keys, values).remove(keys[i]),
{
    let rest = keys.remove(i);
    assert forall|a: int, b: int|
        0 <= a < rest.len() && 0 <= b < rest.len() && a != b implies rest[a] != rest[b] by {
        let x = if a < i {
            a
        } else {
            a + 1
        };
        let y = if b < i {
            b
        } else {
            b + 1
        };
        assert(rest[a] == keys[x] && rest[b] == keys[y]);
    }
    let before = zipped(keys, values).remove(keys[i]);
    let after = zipped(rest, values.remove(i));
    assert forall|k: Seq<char>| after.contains_key(k) == before.contains_key(k) by {
        if rest.contains(k) {
            let a = rest.index_of(k);
            let x = if a < i {
                a
            } else {
                a + 1
            };
            assert(keys[x] == k);
        }
        if keys.contains(k) && k != keys[i] {
            let x = keys.index_of(k);
            let a = if x < i {
                x
            } else {
                x - 1
            };
            assert(rest[a] == k);
        }
    }
    assert forall|k: Seq<char>| after.contains_key(k) implies after[k] == before[k] by {
        let a = rest.index_of(k);
        let x = if a < i {
            a
        } else {
            a + 1
        };
        assert(keys[x] == k);
        lemma_index_of(keys, x);
    }
    assert(after =~= before);
}

impl<V> StringMap<V> {
    /// A map without entries.
    pub fn new() -> (r: Self)
        ensures
            r@ == Map::<Seq<char>, V>::empty(),
            r.keys() == Seq::<Seq<char>>::empty(),
            r.well_formed(),
    {
        let r = StringMap { entries: Vec::new() };
        assert(r@ =~= Map::empty());
        r
    }

    /// Number of entries.
    pub fn len(&self) -> (r: usize)
        ensures
            r == self.keys().len(),
            self.well_formed(),
    {
        proof {
            use_type_invariant(self);
        }
        self.entries.len()
    }

    /// The key that was added `i` keys after the first.
    pub fn key_at(&self, i: usize) -> (r: &String)
        requires
            i < self.keys().len(),
        ensures
            r@ == self.keys()[i as int],
            self.well_formed(),
            self@.contains_key(r@),
    {
        proof {
            use_type_invariant(self);
            lemma_zipped(self.keys(), self.values(), i as int);
        }
        &self.entries[i].0
    }

    /// The value of the key that was added `i` keys after the first.
    pub fn value_at(&self, i: usize) -> (r: &V)
        requires
            i < self.keys().len(),
        ensures
            *r == self.values()[i as int],
            self.well_formed(),
            self@.contains_key(self.keys()[i as int]),
            self@[self.keys()[i as int]] == *r,
    {
        proof {
            use_type_invariant(self);
            lemma_zipped(self.keys(), self.values(), i as int);
        }
        &self.entries[i].1
    }

    /// The position of a key among the keys.
    fn position(entries: &Vec<(String, V)>, key: &str) -> (r: Option<usize>)
        ensures
            match r {
                Some(i) => i < entries@.len() && entries@[i as int].0@ == key@,
                None => !keys_of(entries@).contains(key@),
            },
    {
        for i in 0..entries.len()
            invariant
                forall|j: int| 0 <= j < i ==> keys_of(entries@)[j] != key@,
        {
            if same_text(entries[i].0.as_str(), key) {
                return Some(i);
            }
        }
        None
    }

    /// Whether the map has the key.
    pub fn contains_key(&self, key: &str) -> (r: bool)
        ensures
            r == self@.contains_key(key@),
    {
        match Self::position(&self.entries, key) {
            Some(i) => {
                assert(self.keys()[i as int] == key@);
                true
            },
            None => false,
        }
    }

    /// The value of a key.
    pub fn get(&self, key: &str) -> (r: Option<&V>)
        ensures
            match r {
                Some(v) => self@.contains_key(key@) && *v == self@[key@],
                None => !self@.contains_key(key@),
            },
    {
        proof {
            use_type_invariant(self);
        }
        match Self::position(&self.entries, key) {
            Some(i) => {
                proof {
                    lemma_zipped(self.keys(), self.values(), i as int);
                }
                Some(&self.entries[i].1)
            },
            None => None,
        }
    }

    /// Sets the value of a key, and returns the one it had. A new key comes last.
    pub fn insert(&mut self, key: String, value: V) -> (r: Option<V>)
        ensures
            final(self)@ == old(self)@.insert(key@, value),
            match r {
                Some(v) => old(self)@.contains_key(key@) && v == old(self)@[key@],
                None => !old(self)@.contains_key(key@),
            },
            final(self).keys() == if old(self).keys().contains(key@) {
                old(self).keys()
            } else {
                old(self).keys().push(key@)
            },
            final(self).well_formed(),
    {
        proof {
            use_type_invariant(&*self);
        }
        let ghost keys = self.keys();
        let ghost values = self.values();
        let mut entries: Vec<(String, V)> = Vec::new();
        std::mem::swap(&mut entries, &mut self.entries);
        let ghost before = entries@;
        match Self::position(&entries, key.as_str()) {
            Some(i) => {
                let mut entry = (key, value);
                proof {
                    lemma_zipped(keys, values, i as int);
                    lemma_zipped_update(keys, values, i as int, value);
                }
                std::mem::swap(&mut entry, &mut entries[i]);
                proof {
                    assert(keys_of(entries@) =~= keys);
                    assert(values_of(entries@) =~= values.update(i as int, value));
                    assert(keys[i as int] == key@);
                }
                self.entries = entries;
                Some(entry.1)
            },
            None => {
                proof {
                    lemma_zipped_push(keys, values, key@, value);
                }
                entries.push((key, value));
                proof {
                    assert(keys_of(entries@) =~= keys.push(key@));
                    assert(values_of(entries@) =~= values.push(value));
                }
                self.entries = entries;
                None
            },
        }
    }

    /// Takes a key out, and returns the value that it had.
    pub fn remove(&mut self, key: &str) -> (r: Option<V>)
        ensures
            final(self)@ == old(self)@.remove(key@),
            match r {
                Some(v) => old(self)@.contains_key(key@) && v == old(self)@[key@],
                None => !old(self)@.contains_key(key@),
            },
            final(self).keys() == if old(self).keys().contains(key@) {
                old(self).keys().remove(old(self).keys().index_of(key@))
            } else {
                old(self).keys()
            },
            final(self).well_formed(),
    {
        proof {
            use_type_invariant(&*self);
        }
        let ghost keys = self.keys();
        let ghost values = self.values();
        let mut entries: Vec<(String, V)> = Vec::new();
        std::mem::swap(&mut entries, &mut self.entries);
        match Self::position(&entries, key) {
            Some(i) => {
                proof {
                    lemma_zipped(keys, values, i as int);
                    lemma_zipped_remove(keys, values, i as int);
                    lemma_index_of(keys, i as int);
                    assert(keys[i as int] == key@);
                }
                let entry = entries.remove(i);
                proof {
                    assert(keys_of(entries@) =~= keys.remove(i as int));
                    assert(values_of(entries@) =~= values.remove(i as int));
                }
                self.entries = entries;
                Some(entry.1)
            },
            None => {
                self.entries = entries;
                proof {
                    assert(zipped(keys, values).remove(key@) =~= zipped(keys, values));
                }
                None
            },
        }
    }
}

} // verus!
