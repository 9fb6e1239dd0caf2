//! A table from textual keys to values that remembers the order in which its
//! keys came.
use vstd::prelude::*;

verus! {

/// The place of the first entry of `entries` under `key`; the length of
/// `entries` if there is none.
pub open spec fn place<V>(entries: Seq<(Seq<char>, V)>, key: Seq<char>) -> nat
    decreases entries.len(),
{
    if entries.len() == 0 {
        0
    } else if entries.first().0 == key {
        0
    } else {
        1 + place(entries.drop_first(), key)
    }
}

/// Whether `entries` has an entry under `key`.
pub open spec fn has_key<V>(entries: Seq<(Seq<char>, V)>, key: Seq<char>) -> bool {
    place(entries, key) < entries.len()
}

/// The value under `key`, if `entries` has one.
pub open spec fn lookup<V>(entries: Seq<(Seq<char>, V)>, key: Seq<char>) -> Option<V> {
    if has_key(entries, key) {
        Some(entries[place(entries, key) as int].1)
    } else {
        None
    }
}

/// `entries` with `value` under `key`: in the place of the entry that was
/// there under that key, or else at the end.
pub open spec fn put<V>(entries: Seq<(Seq<char>, V)>, key: Seq<char>, value: V) -> Seq<
    (Seq<char>, V),
> {
    if has_key(entries, key) {
        entries.update(place(entries, key) as int, (key, value))
    } else {
        entries.push((key, value))
    }
}

/// The place of a key is within the entries or just behind them; the entry
/// there is under that key, and no entry before it is.
pub proof fn lemma_place<V>(entries: Seq<(Seq<char>, V)>, key: Seq<char>)
    ensures
        place(entries, key) <= entries.len(),
        has_key(entries, key) ==> entries[place(entries, key) as int].0 == key,
        forall|j: int| 0 <= j < place(entries, key) ==> (#[trigger] entries[j]).0 != key,
    decreases entries.len(),
{
    if entries.len() > 0 && entries.first().0 != key {
        let rest = entries.drop_first();
        lemma_place(rest, key);
        assert forall|j: int| 0 <= j < place(entries, key) implies (#[trigger] entries[j]).0
            != key by {
            if j > 0 {
                assert(rest[j - 1] == entries[j]);
            }
        }
    }
}

/// A place whose entry is under the key, with no such entry before it, is
/// the place of that key; and if no entry is under the key, its place is
/// behind the entries.
pub proof fn lemma_place_is<V>(entries: Seq<(Seq<char>, V)>, key: Seq<char>, at: int)
    requires
        0 <= at <= entries.len(),
        forall|j: int| 0 <= j < at ==> (#[trigger] entries[j]).0 != key,
        at < entries.len() ==> entries[at].0 == key,
    ensures
        place(entries, key) == at,
    decreases at,
{
    if at > 0 {
        let rest = entries.drop_first();
        assert forall|j: int| 0 <= j < at - 1 implies (#[trigger] rest[j]).0 != key by {
            assert(rest[j] == entries[j + 1]);
        }
        lemma_place_is(rest, key, at - 1);
    }
}

/// No key is in `entries` twice.
pub open spec fn distinct_keys<V>(entries: Seq<(Seq<char>, V)>) -> bool {
    forall|i: int, j: int|
        0 <= i < entries.len() && 0 <= j < entries.len() && i != j ==> (#[trigger] entries[i]).0
            != (#[trigger] entries[j]).0
}

/// Putting a value under a key leaves no key twice in entries that had none
/// twice; the value is then found under the key, and what is under every
/// other key is as before.
pub proof fn law_put<V>(entries: Seq<(Seq<char>, V)>, key: Seq<char>, value: V, other: Seq<char>)
    ensures
        distinct_keys(entries) ==> distinct_keys(put(entries, key, value)),
        lookup(put(entries, key, value), key) == Some(value),
        other != key ==> lookup(put(entries, key, value), other) == lookup(entries, other),
        distinct_keys(Seq::<(Seq<char>, V)>::empty()),
{
    let after = put(entries, key, value);
    let at = place(entries, key) as int;
    lemma_place(entries, key);
    lemma_place(entries, other);
    assert forall|j: int| 0 <= j < at implies (#[trigger] after[j]).0 != key by {
        assert(entries[j].0 != key);
    }
    lemma_place_is(after, key, at);
    if other != key {
        let there = place(entries, other) as int;
        assert forall|j: int| 0 <= j < there implies (#[trigger] after[j]).0 != other by {
            assert(entries[j].0 != other);
        }
        lemma_place_is(
            after,
            other,
            if there < entries.len() {
                there
            } else {
                after.len() as int
            },
        );
    }
    if distinct_keys(entries) {
        assert forall|i: int, j: int|
            0 <= i < after.len() && 0 <= j < after.len() && i != j implies (#[trigger] after[i]).0
            != (#[trigger] after[j]).0 by {
            if i < entries.len() && j < entries.len() {
                assert(entries[i].0 != entries[j].0);
            }
        }
    }
}

/// One entry of a table.
#[derive(Clone)]
pub struct Entry<V> {
    pub key: String,
    pub value: V,
}

/// A table from keys to values. Its view is the sequence of its entries, each
/// a key and the view of its value, in the order in which the keys came. A
/// table that is made with `new` and filled with `insert` has no key twice.
#[derive(Clone)]
pub struct Table<V> {
    entries: Vec<Entry<V>>,
}

impl<V: View> View for Table<V> {
    type V = Seq<(Seq<char>, V::V)>;

    closed spec fn view(&self) -> Seq<(Seq<char>, V::V)> {
        self.entries@.map_values(|entry: Entry<V>| (entry.key@, entry.value@))
    }
}

impl<V: View> Table<V> {
    /// An empty table.
    pub fn new() -> (table: Self)
        ensures
            table@ == Seq::<(Seq<char>, V::V)>::empty(),
            distinct_keys(table@),
    {
        Table { entries: Vec::new() }
    }

    /// The number of entries.
    pub fn len(&self) -> (n: usize)
        ensures
            n == self@.len(),
    {
        self.entries.len()
    }

    /// The place of the entry under `key`, or the number of entries if there
    /// is none.
    pub fn position(&self, key: &String) -> (at: usize)
        ensures
            at == place(self@, key@),
            at <= self@.len(),
    {
        let n = self.entries.len();
        let mut at: usize = 0;
        while at < n
            invariant
                at <= n,
                n == self.entries@.len(),
                forall|j: int| 0 <= j < at ==> (#[trigger] self@[j]).0 != key@,
            decreases n - at,
        {
            if self.entries[at].key == *key {
                proof {
                    lemma_place_is(self@, key@, at as int);
                }
                return at;
            }
            at += 1;
        }
        proof {
            lemma_place_is(self@, key@, n as int);
        }
        at
    }

    /// Whether the table has an entry under `key`.
    pub fn contains_key(&self, key: &String) -> (found: bool)
        ensures
            found == has_key(self@, key@),
    {
        self.position(key) < self.entries.len()
    }

    /// The value under `key`, if the table has one.
    pub fn get(&self, key: &String) -> (value: Option<&V>)
        ensures
            match value {
                Some(v) => lookup(self@, key@) == Some(v@),
                None => lookup(self@, key@) is None,
            },
    {
        let at = self.position(key);
        if at < self.entries.len() {
            Some(&self.entries[at].value)
        } else {
            None
        }
    }

    /// The key of the entry at place `at`.
    pub fn key_at(&self, at: usize) -> (key: &String)
        requires
            at < self@.len(),
        ensures
            key@ == self@[at as int].0,
    {
        &self.entries[at].key
    }

    /// The value of the entry at place `at`.
    pub fn value_at(&self, at: usize) -> (value: &V)
        requires
            at < self@.len(),
        ensures
            value@ == self@[at as int].1,
    {
        &self.entries[at].value
    }

    /// Puts `value` under `key`: in the place of the value that was there, or
    /// as a new entry at the end.
    pub fn insert(&mut self, key: String, value: V)
        ensures
            final(self)@ == put(old(self)@, key@, value@),
            distinct_keys(old(self)@) ==> distinct_keys(final(self)@),
    {
        proof {
            law_put(self@, key@, value@, key@);
        }
        let at = self.position(&key);
        if at < self.entries.len() {
            self.entries.set(at, Entry { key, value });
        } else {
            self.entries.push(Entry { key, value });
        }
    }
}

} // verus!
