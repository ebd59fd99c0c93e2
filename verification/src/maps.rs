//! Maps keyed by text, kept as lists of entries in the order of arrival.
//!
//! `StrMap` maps a key to one text and keeps the last value written for a key;
//! `HeaderMap` maps a name to the texts recorded under it, in arrival order.

use crate::text::str_eq;
use vstd::prelude::*;

verus! {

/// Index of the first occurrence of `key` in `keys`; `keys.len()` when there
/// is none.
pub open spec fn position(keys: Seq<Seq<char>>, key: Seq<char>) -> int
    decreases keys.len(),
{
    if keys.len() == 0 {
        0
    } else if keys[0] == key {
        0
    } else {
        1 + position(keys.drop_first(), key)
    }
}

/// The map that a list of keys and a list of values of the same length
/// denote: each key that occurs maps to the value at its first occurrence.
pub open spec fn table<V>(keys: Seq<Seq<char>>, values: Seq<V>) -> Map<Seq<char>, V> {
    Map::new(
        |k: Seq<char>| position(keys, k) < keys.len(),
        |k: Seq<char>| values[position(keys, k)],
    )
}

/// The texts of a list of strings.
pub open spec fn texts(v: Seq<String>) -> Seq<Seq<char>> {
    v.map_values(|s: String| s@)
}

/// `position` is the least index that holds the key.
pub proof fn lemma_position(keys: Seq<Seq<char>>, key: Seq<char>)
    ensures
        0 <= position(keys, key) <= keys.len(),
        forall|k: int| 0 <= k < position(keys, key) ==> keys[k] != key,
        position(keys, key) < keys.len() ==> keys[position(keys, key)] == key,
    decreases keys.len(),
{
    if keys.len() > 0 && keys[0] != key {
        let t = keys.drop_first();
        lemma_position(t, key);
        assert forall|k: int| 0 <= k < position(keys, key) implies keys[k] != key by {
            if k > 0 {
                assert(keys[k] == t[k - 1]);
            }
        }
    }
}

/// An index that holds the key, or the end, with the key nowhere before it,
/// is its `position`.
pub proof fn lemma_position_is(keys: Seq<Seq<char>>, key: Seq<char>, i: int)
    requires
        0 <= i <= keys.len(),
        forall|k: int| 0 <= k < i ==> keys[k] != key,
        i < keys.len() ==> keys[i] == key,
    ensures
        position(keys, key) == i,
{
    lemma_position(keys, key);
    let j = position(keys, key);
    if j < i {
        assert(keys[j] != key);
    } else if i < j {
        assert(keys[i] != key);
    }
}

/// Replacing the value at the first occurrence of a key rewrites that key.
pub proof fn lemma_table_update<V>(keys: Seq<Seq<char>>, values: Seq<V>, i: int, v: V)
    requires
        keys.len() == values.len(),
        0 <= i < keys.len(),
        position(keys, keys[i]) == i,
    ensures
        table(keys, values.update(i, v)) == table(keys, values).insert(keys[i], v),
{
    assert forall|k: Seq<char>| position(keys, k) < keys.len() implies #[trigger] table(
        keys,
        values.update(i, v),
    )[k] == table(keys, values).insert(keys[i], v)[k] by {
        lemma_position(keys, k);
    }
    assert(table(keys, values.update(i, v)) =~= table(keys, values).insert(keys[i], v));
}

/// Appending a key that does not occur yet adds that key.
pub proof fn lemma_table_push<V>(keys: Seq<Seq<char>>, values: Seq<V>, key: Seq<char>, v: V)
    requires
        keys.len() == values.len(),
        position(keys, key) == keys.len(),
    ensures
        table(keys.push(key), values.push(v)) == table(keys, values).insert(key, v),
{
    let keys2 = keys.push(key);
    assert forall|k: Seq<char>| position(keys2, k) == (if k == key {
        keys.len() as int
    } else if position(keys, k) < keys.len() {
        position(keys, k)
    } else {
        keys2.len() as int
    }) by {
        lemma_position(keys, k);
        let p = position(keys, k);
        if k == key {
            lemma_position_is(keys2, k, keys.len() as int);
        } else if p < keys.len() {
            lemma_position_is(keys2, k, p);
        } else {
            lemma_position_is(keys2, k, keys2.len() as int);
        }
    }
    let left = table(keys2, values.push(v));
    let right = table(keys, values).insert(key, v);
    assert forall|k: Seq<char>| left.contains_key(k) implies left[k] == right[k] by {
        lemma_position(keys, k);
    }
    assert(left =~= right);
}

/// The keys of a table are the keys in its list.
pub proof fn lemma_table_keys<V>(keys: Seq<Seq<char>>, values: Seq<V>)
    ensures
        forall|k: Seq<char>| table(keys, values).contains_key(k) <==> keys.contains(k),
{
    assert forall|k: Seq<char>| table(keys, values).contains_key(k) <==> keys.contains(k) by {
        lemma_position(keys, k);
        if keys.contains(k) {
            let i = choose|i: int| 0 <= i < keys.len() && keys[i] == k;
            assert(keys[i] == k);
        }
    }
}

/// A map from text to text.
pub struct StrMap {
    entries: Vec<(String, String)>,
}

impl View for StrMap {
    type V = Map<Seq<char>, Seq<char>>;

    closed spec fn view(&self) -> Map<Seq<char>, Seq<char>> {
        table(self.keys(), self.values())
    }
}

impl StrMap {
    /// The keys of the entries, in the order in which they arrived.
    pub closed spec fn keys(&self) -> Seq<Seq<char>> {
        Seq::new(self.entries@.len(), |i: int| self.entries@[i].0@)
    }

    /// The values of the entries, in the order of `keys`.
    pub closed spec fn values(&self) -> Seq<Seq<char>> {
        Seq::new(self.entries@.len(), |i: int| self.entries@[i].1@)
    }

    /// No key is listed twice.  Every map built by this crate is well formed.
    pub open spec fn wf(&self) -> bool {
        self.keys().no_duplicates()
    }

    /// A well-formed map lists each of its keys once, with its value.
    pub proof fn lemma_entries(&self)
        ensures
            self.keys().len() == self.values().len(),
            forall|k: Seq<char>| self@.contains_key(k) <==> self.keys().contains(k),
            self.wf() ==> forall|i: int|
                0 <= i < self.keys().len() ==> self@[#[trigger] self.keys()[i]] == self.values()[i],
    {
        lemma_table_keys(self.keys(), self.values());
        if self.wf() {
            assert forall|i: int| 0 <= i < self.keys().len() implies self@[#[trigger] self.keys()[i]]
                == self.values()[i] by {
                lemma_position(self.keys(), self.keys()[i]);
            }
        }
    }

    /// The empty map.
    pub fn new() -> (m: Self)
        ensures
            m@ == Map::<Seq<char>, Seq<char>>::empty(),
            m.keys() == Seq::<Seq<char>>::empty(),
            m.wf(),
    {
        let m = StrMap { entries: Vec::new() };
        assert(m.keys() =~= Seq::<Seq<char>>::empty());
        assert(m@ =~= Map::<Seq<char>, Seq<char>>::empty());
        m
    }

    /// The number of entries.
    pub fn len(&self) -> (n: usize)
        ensures
            n == self.keys().len(),
    {
        self.entries.len()
    }

    /// Whether the map has no entry.
    pub fn is_empty(&self) -> (b: bool)
        ensures
            b == (self.keys().len() == 0),
            b == (self@ == Map::<Seq<char>, Seq<char>>::empty()),
    {
        proof {
            lemma_table_keys(self.keys(), self.values());
            if self.keys().len() == 0 {
                assert(self@ =~= Map::<Seq<char>, Seq<char>>::empty());
            } else {
                assert(self.keys().contains(self.keys()[0]));
            }
        }
        self.entries.len() == 0
    }

    fn find(&self, key: &str) -> (i: usize)
        ensures
            i == position(self.keys(), key@),
            i <= self.entries@.len(),
    {
        let mut i: usize = 0;
        while i < self.entries.len() && !str_eq(self.entries[i].0.as_str(), key)
            invariant
                i <= self.entries.len(),
                forall|k: int| 0 <= k < i ==> self.keys()[k] != key@,
            decreases self.entries.len() - i,
        {
            i += 1;
        }
        proof {
            lemma_position_is(self.keys(), key@, i as int);
        }
        i
    }

    /// The value under `key`, if the map has that key.
    pub fn get(&self, key: &str) -> (r: Option<&String>)
        ensures
            match r {
                Some(v) => self@.contains_key(key@) && self@[key@] == v@,
                None => !self@.contains_key(key@),
            },
    {
        let i = self.find(key);
        if i < self.entries.len() {
            Some(&self.entries[i].1)
        } else {
            None
        }
    }

    /// Whether the map has `key`.
    pub fn contains_key(&self, key: &str) -> (b: bool)
        ensures
            b == self@.contains_key(key@),
    {
        self.find(key) < self.entries.len()
    }

    /// Key and value of entry `i`, counted in the order of `keys`.  In a
    /// well-formed map the value is the one that the map has under the key.
    pub fn entry(&self, i: usize) -> (r: (&String, &String))
        requires
            i < self.keys().len(),
        ensures
            r.0@ == self.keys()[i as int],
            r.1@ == self.values()[i as int],
            self@.contains_key(r.0@),
            self.wf() ==> self@[r.0@] == r.1@,
    {
        proof {
            self.lemma_entries();
            assert(self.keys().contains(self.keys()[i as int]));
        }
        (&self.entries[i].0, &self.entries[i].1)
    }

    /// Writes `value` under `key`, in place of an earlier value for that key.
    pub fn insert(&mut self, key: String, value: String)
        ensures
            final(self)@ == old(self)@.insert(key@, value@),
            final(self).keys() == if old(self)@.contains_key(key@) {
                old(self).keys()
            } else {
                old(self).keys().push(key@)
            },
            old(self).wf() ==> final(self).wf(),
    {
        let ghost keys = self.keys();
        let ghost values = self.values();
        let i = self.find(key.as_str());
        proof {
            lemma_position(keys, key@);
        }
        if i < self.entries.len() {
            self.entries[i] = (key, value);
            proof {
                assert(self.keys() =~= keys);
                assert(self.values() =~= values.update(i as int, value@));
                lemma_table_update(keys, values, i as int, value@);
            }
        } else {
            self.entries.push((key, value));
            proof {
                assert(self.keys() =~= keys.push(key@));
                assert(self.values() =~= values.push(value@));
                lemma_table_push(keys, values, key@, value@);
            }
        }
    }
}

/// A map from a name to the texts recorded under it, in arrival order.
pub struct HeaderMap {
    entries: Vec<(String, Vec<String>)>,
}

impl View for HeaderMap {
    type V = Map<Seq<char>, Seq<Seq<char>>>;

    closed spec fn view(&self) -> Map<Seq<char>, Seq<Seq<char>>> {
        table(self.names(), self.values())
    }
}

impl HeaderMap {
    /// The names of the entries, in the order in which they first arrived.
    pub closed spec fn names(&self) -> Seq<Seq<char>> {
        Seq::new(self.entries@.len(), |i: int| self.entries@[i].0@)
    }

    /// The value lists of the entries, in the order of `names`.
    pub closed spec fn values(&self) -> Seq<Seq<Seq<char>>> {
        Seq::new(self.entries@.len(), |i: int| texts(self.entries@[i].1@))
    }

    /// No name is listed twice.  Every map built by this crate is well formed.
    pub open spec fn wf(&self) -> bool {
        self.names().no_duplicates()
    }

    /// A well-formed map lists each of its names once, with its values.
    pub proof fn lemma_entries(&self)
        ensures
            self.names().len() == self.values().len(),
            forall|k: Seq<char>| self@.contains_key(k) <==> self.names().contains(k),
            self.wf() ==> forall|i: int|
                0 <= i < self.names().len() ==> self@[#[trigger] self.names()[i]]
                    == self.values()[i],
    {
        lemma_table_keys(self.names(), self.values());
        if self.wf() {
            assert forall|i: int|
                0 <= i < self.names().len() implies self@[#[trigger] self.names()[i]]
                == self.values()[i] by {
                lemma_position(self.names(), self.names()[i]);
            }
        }
    }

    /// The empty map.
    pub fn new() -> (m: Self)
        ensures
            m@ == Map::<Seq<char>, Seq<Seq<char>>>::empty(),
            m.names() == Seq::<Seq<char>>::empty(),
            m.wf(),
    {
        let m = HeaderMap { entries: Vec::new() };
        assert(m.names() =~= Seq::<Seq<char>>::empty());
        assert(m@ =~= Map::<Seq<char>, Seq<Seq<char>>>::empty());
        m
    }

    /// The number of names.
    pub fn len(&self) -> (n: usize)
        ensures
            n == self.names().len(),
    {
        self.entries.len()
    }

    fn find(&self, name: &str) -> (i: usize)
        ensures
            i == position(self.names(), name@),
            i <= self.entries@.len(),
    {
        let mut i: usize = 0;
        while i < self.entries.len() && !str_eq(self.entries[i].0.as_str(), name)
            invariant
                i <= self.entries.len(),
                forall|k: int| 0 <= k < i ==> self.names()[k] != name@,
            decreases self.entries.len() - i,
        {
            i += 1;
        }
        proof {
            lemma_position_is(self.names(), name@, i as int);
        }
        i
    }

    /// The values recorded under exactly `name`, if there are any.
    pub fn get(&self, name: &str) -> (r: Option<&Vec<String>>)
        ensures
            match r {
                Some(v) => self@.contains_key(name@) && self@[name@] == texts(v@),
                None => !self@.contains_key(name@),
            },
    {
        let i = self.find(name);
        if i < self.entries.len() {
            Some(&self.entries[i].1)
        } else {
            None
        }
    }

    /// Name and values of entry `i`, counted in the order of `names`.  In a
    /// well-formed map the values are those that the map has under the name.
    pub fn entry(&self, i: usize) -> (r: (&String, &Vec<String>))
        requires
            i < self.names().len(),
        ensures
            r.0@ == self.names()[i as int],
            texts(r.1@) == self.values()[i as int],
            self@.contains_key(r.0@),
            self.wf() ==> self@[r.0@] == texts(r.1@),
    {
        proof {
            self.lemma_entries();
            assert(self.names().contains(self.names()[i as int]));
        }
        (&self.entries[i].0, &self.entries[i].1)
    }

    /// Records `value` under `name`, after the values that `name` already has.
    pub fn append(&mut self, name: String, value: String)
        ensures
            final(self)@ == old(self)@.insert(name@, recorded(old(self)@, name@).push(value@)),
            final(self).names() == if old(self)@.contains_key(name@) {
                old(self).names()
            } else {
                old(self).names().push(name@)
            },
            old(self).wf() ==> final(self).wf(),
    {
        let ghost names = self.names();
        let ghost values = self.values();
        let i = self.find(name.as_str());
        proof {
            lemma_position(names, name@);
        }
        if i < self.entries.len() {
            let ghost earlier = self.entries@[i as int].1@;
            self.entries[i].1.push(value);
            proof {
                assert(texts(earlier.push(value)) =~= texts(earlier).push(value@));
                assert(self.names() =~= names);
                assert(self.values() =~= values.update(i as int, values[i as int].push(value@)));
                lemma_table_update(names, values, i as int, values[i as int].push(value@));
            }
        } else {
            let mut list: Vec<String> = Vec::new();
            list.push(value);
            assert(texts(list@) =~= Seq::<Seq<char>>::empty().push(value@));
            self.entries.push((name, list));
            proof {
                assert(self.names() =~= names.push(name@));
                assert(self.values() =~= values.push(Seq::<Seq<char>>::empty().push(value@)));
                lemma_table_push(names, values, name@, Seq::<Seq<char>>::empty().push(value@));
            }
        }
    }
}

/// The values that `headers` has under `name`; none when the name is absent.
pub open spec fn recorded(headers: Map<Seq<char>, Seq<Seq<char>>>, name: Seq<char>) -> Seq<
    Seq<char>,
> {
    if headers.contains_key(name) {
        headers[name]
    } else {
        Seq::empty()
    }
}

} // verus!
