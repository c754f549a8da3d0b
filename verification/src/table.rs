//! A map from texts to values.

use vstd::prelude::*;

verus! {

/// A map from texts to values. Its entries keep the order in which their keys
/// were first inserted.
pub struct TextMap<V> {
    entries: Vec<(String, V)>,
}

/// Whether no key stands in two entries.
pub open spec fn keys_differ<V>(entries: Seq<(Seq<char>, V)>) -> bool {
    forall|i: int, j: int|
        0 <= i < j < entries.len() ==> (#[trigger] entries[i]).0 != (#[trigger] entries[j]).0
}

/// Whether a key stands in one of the entries.
pub open spec fn has_key<V>(entries: Seq<(Seq<char>, V)>, key: Seq<char>) -> bool {
    exists|i: int| 0 <= i < entries.len() && (#[trigger] entries[i]).0 == key
}

/// The value of a key.
pub open spec fn value_of<V>(entries: Seq<(Seq<char>, V)>, key: Seq<char>) -> V {
    entries[choose|i: int| 0 <= i < entries.len() && (#[trigger] entries[i]).0 == key].1
}

/// The map that entries make up.
pub open spec fn map_of<V>(entries: Seq<(Seq<char>, V)>) -> Map<Seq<char>, V> {
    Map::new(|key: Seq<char>| has_key(entries, key), |key: Seq<char>| value_of(entries, key))
}

/// Each entry is in the map that the entries make up.
pub proof fn entry_is_mapped<V>(entries: Seq<(Seq<char>, V)>, i: int)
    requires
        keys_differ(entries),
        0 <= i < entries.len(),
    ensures
        map_of(entries).dom().contains(entries[i].0),
        map_of(entries)[entries[i].0] == entries[i].1,
{
    let key = entries[i].0;
    assert(has_key(entries, key));
    let k = choose|k: int| 0 <= k < entries.len() && (#[trigger] entries[k]).0 == key;
    assert(k == i);
}

proof fn pushed_map<V>(entries: Seq<(Seq<char>, V)>, key: Seq<char>, value: V)
    requires
        keys_differ(entries),
        !has_key(entries, key),
    ensures
        keys_differ(entries.push((key, value))),
        map_of(entries.push((key, value))) == map_of(entries).insert(key, value),
{
    let more = entries.push((key, value));
    let m = map_of(entries).insert(key, value);
    assert(keys_differ(more));
    entry_is_mapped(more, entries.len() as int);
    assert forall|k: Seq<char>| map_of(more).dom().contains(k) == m.dom().contains(k) by {
        if has_key(entries, k) {
            let i = choose|i: int| 0 <= i < entries.len() && (#[trigger] entries[i]).0 == k;
            assert(more[i].0 == k);
        }
        if has_key(more, k) && k != key {
            let i = choose|i: int| 0 <= i < more.len() && (#[trigger] more[i]).0 == k;
            assert(entries[i].0 == k);
        }
    }
    assert forall|k: Seq<char>| m.dom().contains(k) implies map_of(more)[k] == m[k] by {
        if k != key {
            let i = choose|i: int| 0 <= i < entries.len() && (#[trigger] entries[i]).0 == k;
            entry_is_mapped(entries, i);
            entry_is_mapped(more, i);
        }
    }
    assert(map_of(more) =~= m);
}

proof fn updated_map<V>(entries: Seq<(Seq<char>, V)>, n: int, value: V)
    requires
        keys_differ(entries),
        0 <= n < entries.len(),
    ensures
        keys_differ(entries.update(n, (entries[n].0, value))),
        map_of(entries.update(n, (entries[n].0, value))) == map_of(entries).insert(
            entries[n].0,
            value,
        ),
{
    let more = entries.update(n, (entries[n].0, value));
    let m = map_of(entries).insert(entries[n].0, value);
    assert forall|i: int, j: int| 0 <= i < j < more.len() implies (#[trigger] more[i]).0 != (
    #[trigger] more[j]).0 by {
        assert(entries[i].0 != entries[j].0);
    }
    entry_is_mapped(entries, n);
    entry_is_mapped(more, n);
    assert forall|k: Seq<char>| map_of(more).dom().contains(k) == m.dom().contains(k) by {
        if has_key(entries, k) {
            let i = choose|i: int| 0 <= i < entries.len() && (#[trigger] entries[i]).0 == k;
            assert(more[i].0 == k);
        }
        if has_key(more, k) {
            let i = choose|i: int| 0 <= i < more.len() && (#[trigger] more[i]).0 == k;
            assert(entries[i].0 == k);
        }
    }
    assert forall|k: Seq<char>| m.dom().contains(k) implies map_of(more)[k] == m[k] by {
        let i = choose|i: int| 0 <= i < entries.len() && (#[trigger] entries[i]).0 == k;
        entry_is_mapped(entries, i);
        entry_is_mapped(more, i);
    }
    assert(map_of(more) =~= m);
}

proof fn removed_map<V>(entries: Seq<(Seq<char>, V)>, n: int)
    requires
        keys_differ(entries),
        0 <= n < entries.len(),
    ensures
        keys_differ(entries.remove(n)),
        map_of(entries.remove(n)) == map_of(entries).remove(entries[n].0),
{
    let less = entries.remove(n);
    let m = map_of(entries).remove(entries[n].0);
    assert forall|i: int, j: int| 0 <= i < j < less.len() implies (#[trigger] less[i]).0 != (
    #[trigger] less[j]).0 by {
        let a = if i < n {
            i
        } else {
            i + 1
        };
        let b = if j < n {
            j
        } else {
            j + 1
        };
        assert(entries[a].0 != entries[b].0);
    }
    assert forall|k: Seq<char>| map_of(less).dom().contains(k) == m.dom().contains(k) by {
        if has_key(less, k) {
            let i = choose|i: int| 0 <= i < less.len() && (#[trigger] less[i]).0 == k;
            let a = if i < n {
                i
            } else {
                i + 1
            };
            assert(entries[a].0 == k);
            assert(a != n);
        }
        if has_key(entries, k) && k != entries[n].0 {
            let i = choose|i: int| 0 <= i < entries.len() && (#[trigger] entries[i]).0 == k;
            let a = if i < n {
                i
            } else {
                i - 1
            };
            assert(less[a].0 == k);
        }
    }
    assert forall|k: Seq<char>| m.dom().contains(k) implies map_of(less)[k] == m[k] by {
        let i = choose|i: int| 0 <= i < less.len() && (#[trigger] less[i]).0 == k;
        let a = if i < n {
            i
        } else {
            i + 1
        };
        entry_is_mapped(less, i);
        entry_is_mapped(entries, a);
    }
    assert(map_of(less) =~= m);
}

impl<V> TextMap<V> {
    /// The entries in order.
    pub closed spec fn items(&self) -> Seq<(Seq<char>, V)> {
        Seq::new(self.entries@.len(), |i: int| (self.entries@[i].0@, self.entries@[i].1))
    }

    #[verifier::type_invariant]
    spec fn well_formed(self) -> bool {
        keys_differ(self.items())
    }

    /// A map without entries.
    pub fn new() -> (r: Self)
        ensures
            r@ == Map::<Seq<char>, V>::empty(),
            r.items().len() == 0,
    {
        let r = TextMap { entries: Vec::new() };
        assert(r@ =~= Map::<Seq<char>, V>::empty());
        r
    }

    /// The number of entries. No key stands in two of them.
    pub fn len(&self) -> (r: usize)
        ensures
            r == self.items().len(),
            keys_differ(self.items()),
    {
        proof {
            use_type_invariant(self);
        }
        self.entries.len()
    }

    /// Whether there is no entry.
    pub fn is_empty(&self) -> (r: bool)
        ensures
            r == (self.items().len() == 0),
    {
        self.entries.len() == 0
    }

    fn position(&self, key: &str) -> (r: Option<usize>)
        ensures
            match r {
                Some(i) => i < self.entries@.len() && self.items()[i as int].0 == key@,
                None => !has_key(self.items(), key@),
            },
    {
        let mut i: usize = 0;
        while i < self.entries.len()
            invariant
                i <= self.entries.len(),
                forall|j: int| 0 <= j < i ==> (#[trigger] self.items()[j]).0 != key@,
            decreases self.entries.len() - i,
        {
            if crate::text::str_eq(self.entries[i].0.as_str(), key) {
                return Some(i);
            }
            i += 1;
        }
        None
    }

    /// The key of the `i`-th entry.
    pub fn key_at(&self, i: usize) -> (r: &String)
        requires
            i < self.items().len(),
        ensures
            r@ == self.items()[i as int].0,
    {
        &self.entries[i].0
    }

    /// The value of the `i`-th entry.
    pub fn value_at(&self, i: usize) -> (r: &V)
        requires
            i < self.items().len(),
        ensures
            *r == self.items()[i as int].1,
    {
        &self.entries[i].1
    }

    /// The value of a key.
    pub fn get(&self, key: &str) -> (r: Option<&V>)
        ensures
            match r {
                Some(v) => self@.dom().contains(key@) && *v == self@[key@],
                None => !self@.dom().contains(key@),
            },
    {
        proof {
            use_type_invariant(self);
        }
        match self.position(key) {
            Some(i) => {
                proof {
                    entry_is_mapped(self.items(), i as int);
                }
                Some(&self.entries[i].1)
            },
            None => None,
        }
    }

    /// Whether a key has a value.
    pub fn contains_key(&self, key: &str) -> (r: bool)
        ensures
            r == self@.dom().contains(key@),
    {
        self.get(key).is_some()
    }

    /// Gives a key a value, in place of the one it had.
    pub fn insert(&mut self, key: String, value: V)
        ensures
            final(self)@ == old(self)@.insert(key@, value),
    {
        proof {
            use_type_invariant(&*self);
        }
        let ghost before = self.items();
        let at = self.position(key.as_str());
        let mut entries: Vec<(String, V)> = Vec::new();
        std::mem::swap(&mut entries, &mut self.entries);
        match at {
            Some(i) => {
                proof {
                    updated_map(before, i as int, value);
                }
                entries.set(i, (key, value));
            },
            None => {
                proof {
                    pushed_map(before, key@, value);
                }
                entries.push((key, value));
            },
        }
        let ghost after = Seq::new(entries@.len(), |i: int| (entries@[i].0@, entries@[i].1));
        assert(at matches Some(i) ==> after == before.update(i as int, (before[i as int].0, value)));
        assert(at is None ==> after == before.push((key@, value)));
        self.entries = entries;
    }

    /// Takes a key and its value away.
    pub fn remove(&mut self, key: &str) -> (r: Option<V>)
        ensures
            final(self)@ == old(self)@.remove(key@),
            match r {
                Some(v) => old(self)@.dom().contains(key@) && v == old(self)@[key@],
                None => !old(self)@.dom().contains(key@),
            },
    {
        proof {
            use_type_invariant(&*self);
        }
        let ghost before = self.items();
        match self.position(key) {
            Some(i) => {
                let mut entries: Vec<(String, V)> = Vec::new();
                std::mem::swap(&mut entries, &mut self.entries);
                let (_, v) = entries.remove(i);
                proof {
                    entry_is_mapped(before, i as int);
                    removed_map(before, i as int);
                }
                let ghost after = Seq::new(
                    entries@.len(),
                    |i: int| (entries@[i].0@, entries@[i].1),
                );
                assert(after == before.remove(i as int));
                self.entries = entries;
                Some(v)
            },
            None => {
                assert(self@.remove(key@) =~= self@);
                None
            },
        }
    }
}

impl<V> View for TextMap<V> {
    type V = Map<Seq<char>, V>;

    open spec fn view(&self) -> Map<Seq<char>, V> {
        map_of(self.items())
    }
}

} // verus!
