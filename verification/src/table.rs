//! A small map from string keys to values, kept as a list of entries in
//! which no key occurs twice.
use crate::text::str_eq;
use vstd::prelude::*;

verus! {

/// One key of a [`Table`] with the value stored under it.
#[derive(Debug)]
pub struct Entry<V> {
    pub key: String,
    pub value: V,
}

/// A map from strings to values of type `V`.
///
/// The order in which the entries are held can be walked with
/// [`Table::key_at`] and [`Table::value_at`], but it is no part of what the
/// table means: that is [`Table::map`] alone.
#[derive(Debug)]
pub struct Table<V> {
    pub(crate) entries: Vec<Entry<V>>,
}

/// Entry `i` of `s` exists and is stored under the key `k`.
pub open spec fn has_key_at<V>(s: Seq<Entry<V>>, k: Seq<char>, i: int) -> bool {
    0 <= i < s.len() && s[i].key@ == k
}

/// No two entries of `s` share a key.
pub open spec fn distinct_keys<V>(s: Seq<Entry<V>>) -> bool {
    forall|i: int, j: int|
        0 <= i < s.len() && 0 <= j < s.len() && i != j ==> #[trigger] s[i].key@
            != #[trigger] s[j].key@
}

/// Some position of `s` that holds the key `k`, if there is one.
pub open spec fn index_of<V>(s: Seq<Entry<V>>, k: Seq<char>) -> int {
    choose|i: int| has_key_at(s, k, i)
}

/// The map that a list of entries stands for.
pub open spec fn entries_map<V>(s: Seq<Entry<V>>) -> Map<Seq<char>, V> {
    Map::new(
        |k: Seq<char>| exists|i: int| has_key_at(s, k, i),
        |k: Seq<char>| s[index_of(s, k)].value,
    )
}

/// The keys of a list of entries, in the order of the list.
pub open spec fn entries_keys<V>(s: Seq<Entry<V>>) -> Seq<Seq<char>> {
    Seq::new(s.len(), |i: int| s[i].key@)
}

/// In a list without repeated keys, each entry is what the map holds under
/// its key.
pub proof fn lemma_entry_in_map<V>(s: Seq<Entry<V>>, i: int)
    requires
        distinct_keys(s),
        0 <= i < s.len(),
    ensures
        entries_map(s).contains_key(s[i].key@),
        entries_map(s)[s[i].key@] == s[i].value,
{
    let k = s[i].key@;
    assert(has_key_at(s, k, i));
    let j = index_of(s, k);
    assert(has_key_at(s, k, j));
}

/// Writing `value` under `key` at position `at`, which is either the place
/// where `key` already stood or the end of the list, inserts into the map.
proof fn lemma_put<V>(
    before: Seq<Entry<V>>,
    after: Seq<Entry<V>>,
    at: int,
    key: Seq<char>,
    value: V,
)
    requires
        distinct_keys(before),
        has_key_at(before, key, at) || (at == before.len() && forall|i: int|
            !has_key_at(before, key, i)),
        0 <= at < after.len(),
        after[at].key@ == key,
        after[at].value == value,
        forall|a: int|
            0 <= a < after.len() && a != at ==> a < before.len() && #[trigger] after[a]
                == before[a],
        before.len() <= after.len(),
    ensures
        distinct_keys(after),
        entries_map(after) == entries_map(before).insert(key, value),
{
    assert forall|a: int| 0 <= a < after.len() && a != at implies a < before.len() && after[a]
        == before[a] && before[a].key@ != key by {
        assert(after[a] == before[a]);
        if has_key_at(before, key, at) {
        } else {
            assert(!has_key_at(before, key, a));
        }
    }
    assert forall|a: int, b: int|
        0 <= a < after.len() && 0 <= b < after.len() && a != b implies after[a].key@
        != after[b].key@ by {
        if a != at && b != at {
            assert(before[a].key@ != before[b].key@);
        }
    }
    lemma_entry_in_map(after, at);
    assert forall|k: Seq<char>| k != key implies (#[trigger] entries_map(after).contains_key(k)
        <==> entries_map(before).contains_key(k)) by {
        if entries_map(before).contains_key(k) {
            let a = index_of(before, k);
            assert(has_key_at(after, k, a));
        }
        if entries_map(after).contains_key(k) {
            let a = index_of(after, k);
            assert(has_key_at(before, k, a));
        }
    }
    assert forall|k: Seq<char>| k != key && entries_map(before).contains_key(k) implies #[trigger] entries_map(
        after,
    )[k] == entries_map(before)[k] by {
        let a = index_of(before, k);
        assert(has_key_at(after, k, a));
        lemma_entry_in_map(after, a);
        lemma_entry_in_map(before, a);
    }
    assert(entries_map(after) =~= entries_map(before).insert(key, value));
}

/// Taking the entry at position `at` out of the list removes its key from
/// the map.
proof fn lemma_take<V>(before: Seq<Entry<V>>, at: int)
    requires
        distinct_keys(before),
        0 <= at < before.len(),
    ensures
        distinct_keys(before.remove(at)),
        entries_map(before.remove(at)) == entries_map(before).remove(before[at].key@),
{
    let after = before.remove(at);
    let key = before[at].key@;
    let up = |a: int| if a < at { a } else { a + 1 };
    assert forall|a: int| 0 <= a < after.len() implies after[a] == before[up(a)] && up(a) != at
        && 0 <= up(a) < before.len() by {}
    assert forall|a: int, b: int|
        0 <= a < after.len() && 0 <= b < after.len() && a != b implies after[a].key@
        != after[b].key@ by {
        assert(before[up(a)].key@ != before[up(b)].key@);
    }
    assert forall|k: Seq<char>| #[trigger]
        entries_map(after).contains_key(k) <==> (k != key && entries_map(before).contains_key(
            k,
        )) by {
        if entries_map(after).contains_key(k) {
            let a = index_of(after, k);
            assert(has_key_at(before, k, up(a)));
            assert(before[up(a)].key@ != before[at].key@);
        }
        if k != key && entries_map(before).contains_key(k) {
            let b = index_of(before, k);
            let a = if b < at { b } else { b - 1 };
            assert(has_key_at(after, k, a));
        }
    }
    assert forall|k: Seq<char>| entries_map(after).contains_key(k) implies #[trigger] entries_map(
        after,
    )[k] == entries_map(before)[k] by {
        let a = index_of(after, k);
        assert(has_key_at(before, k, up(a)));
        lemma_entry_in_map(after, a);
        lemma_entry_in_map(before, up(a));
    }
    assert(entries_map(after) =~= entries_map(before).remove(key));
}

impl<V> Table<V> {
    /// No key occurs twice.
    #[verifier::type_invariant]
    pub(crate) open spec fn wf(&self) -> bool {
        distinct_keys(self.entries@)
    }

    /// What the table holds: the value stored under each key.
    pub open(crate) spec fn map(&self) -> Map<Seq<char>, V> {
        entries_map(self.entries@)
    }

    /// The keys in the order in which the table holds them.
    pub open(crate) spec fn keys(&self) -> Seq<Seq<char>> {
        entries_keys(self.entries@)
    }

    /// An empty table.
    pub fn new() -> (t: Table<V>)
        ensures
            t.map() == Map::<Seq<char>, V>::empty(),
            t.keys() == Seq::<Seq<char>>::empty(),
    {
        let t = Table { entries: Vec::new() };
        assert(t.map() =~= Map::<Seq<char>, V>::empty());
        assert(t.keys() =~= Seq::<Seq<char>>::empty());
        t
    }

    /// The number of entries. The keys that can be walked are exactly the
    /// keys of the map, each once.
    pub fn len(&self) -> (n: usize)
        ensures
            n == self.keys().len(),
            self.keys().no_duplicates(),
            forall|k: Seq<char>| self.keys().contains(k) <==> self.map().contains_key(k),
    {
        proof {
            use_type_invariant(self);
            let s = self.entries@;
            assert forall|k: Seq<char>| self.keys().contains(k) <==> self.map().contains_key(
                k,
            ) by {
                if self.keys().contains(k) {
                    let i = choose|i: int| 0 <= i < self.keys().len() && self.keys()[i] == k;
                    assert(has_key_at(s, k, i));
                }
                if self.map().contains_key(k) {
                    let i = index_of(s, k);
                    assert(self.keys()[i] == k);
                }
            }
        }
        self.entries.len()
    }

    /// Tells whether the table holds nothing.
    pub fn is_empty(&self) -> (b: bool)
        ensures
            b == (self.keys().len() == 0),
            b == (self.map() == Map::<Seq<char>, V>::empty()),
    {
        proof {
            if self.entries@.len() == 0 {
                assert(self.map() =~= Map::<Seq<char>, V>::empty());
            } else {
                assert(has_key_at(self.entries@, self.entries@[0].key@, 0));
                assert(self.map().contains_key(self.entries@[0].key@));
            }
        }
        self.entries.len() == 0
    }

    /// The key at position `i` of the walk.
    pub fn key_at(&self, i: usize) -> (k: &String)
        requires
            i < self.keys().len(),
        ensures
            k@ == self.keys()[i as int],
    {
        &self.entries[i].key
    }

    /// The value at position `i` of the walk: what the map holds under
    /// the key at that position.
    pub fn value_at(&self, i: usize) -> (v: &V)
        requires
            i < self.keys().len(),
        ensures
            self.map().contains_key(self.keys()[i as int]),
            *v == self.map()[self.keys()[i as int]],
    {
        proof {
            use_type_invariant(self);
            lemma_entry_in_map(self.entries@, i as int);
        }
        &self.entries[i].value
    }

    fn position(&self, key: &str) -> (r: Option<usize>)
        ensures
            match r {
                Some(i) => has_key_at(self.entries@, key@, i as int),
                None => forall|i: int| !has_key_at(self.entries@, key@, i),
            },
    {
        let mut i: usize = 0;
        while i < self.entries.len()
            invariant
                i <= self.entries.len(),
                forall|j: int| 0 <= j < i ==> !has_key_at(self.entries@, key@, j),
            decreases self.entries.len() - i,
        {
            if str_eq(self.entries[i].key.as_str(), key) {
                return Some(i);
            }
            i += 1;
        }
        None
    }

    /// Tells whether something is stored under `key`.
    pub fn contains_key(&self, key: &str) -> (b: bool)
        ensures
            b == self.map().contains_key(key@),
    {
        self.position(key).is_some()
    }

    /// The value stored under `key`, if there is one.
    pub fn get(&self, key: &str) -> (r: Option<&V>)
        ensures
            match r {
                Some(v) => self.map().contains_key(key@) && *v == self.map()[key@],
                None => !self.map().contains_key(key@),
            },
    {
        proof {
            use_type_invariant(self);
        }
        match self.position(key) {
            Some(i) => {
                proof {
                    lemma_entry_in_map(self.entries@, i as int);
                }
                Some(&self.entries[i].value)
            },
            None => None,
        }
    }

    /// Stores `value` under `key`, in place of what was stored there.
    pub fn insert(&mut self, key: String, value: V)
        ensures
            final(self).map() == old(self).map().insert(key@, value),
    {
        proof {
            use_type_invariant(&*self);
        }
        let found = self.position(key.as_str());
        let mut taken = Table { entries: Vec::new() };
        core::mem::swap(self, &mut taken);
        let Table { entries } = taken;
        let mut entries = entries;
        let ghost before = entries@;
        let ghost at: int = match found {
            Some(i) => i as int,
            None => before.len() as int,
        };
        match found {
            Some(i) => {
                entries.set(i, Entry { key, value });
            },
            None => {
                entries.push(Entry { key, value });
            },
        }
        proof {
            lemma_put(before, entries@, at, key@, value);
        }
        *self = Table { entries };
    }

    /// Takes out what is stored under `key` and returns it.
    pub fn remove(&mut self, key: &str) -> (r: Option<V>)
        ensures
            final(self).map() == old(self).map().remove(key@),
            r == (if old(self).map().contains_key(key@) {
                Some(old(self).map()[key@])
            } else {
                None
            }),
    {
        proof {
            use_type_invariant(&*self);
        }
        match self.position(key) {
            Some(i) => {
                let mut taken = Table { entries: Vec::new() };
                core::mem::swap(self, &mut taken);
                let Table { entries } = taken;
                let mut entries = entries;
                let ghost before = entries@;
                let entry = entries.remove(i);
                proof {
                    lemma_entry_in_map(before, i as int);
                    lemma_take(before, i as int);
                }
                *self = Table { entries };
                Some(entry.value)
            },
            None => {
                assert(self.map().remove(key@) =~= self.map());
                None
            },
        }
    }
}

} // verus!
