//! A store of values keyed by string identifiers, in insertion order.

use vstd::prelude::*;
use crate::text::same_chars;

verus! {

/// Whether some entry of `s` has key `k`.
pub open spec fn has_key<P>(s: Seq<(Seq<char>, P)>, k: Seq<char>) -> bool {
    exists|i: int| 0 <= i < s.len() && #[trigger] s[i].0 == k
}

/// No two entries of `s` share a key.
pub open spec fn keys_unique<P>(s: Seq<(Seq<char>, P)>) -> bool {
    forall|i: int, j: int| 0 <= i < s.len() && 0 <= j < s.len() && i != j ==> #[trigger] s[i].0 != #[trigger] s[j].0
}

/// Whether `i` is the first position of `s` whose key is `k`.
pub open spec fn is_first_index<P>(s: Seq<(Seq<char>, P)>, k: Seq<char>, i: int) -> bool {
    &&& 0 <= i < s.len()
    &&& s[i].0 == k
    &&& forall|j: int| 0 <= j < i ==> #[trigger] s[j].0 != k
}

/// The first position whose key is `k` (meaningful when `has_key(s, k)`).
pub open spec fn key_index<P>(s: Seq<(Seq<char>, P)>, k: Seq<char>) -> int {
    choose|i: int| is_first_index(s, k, i)
}

/// The value stored under `k`, if any.
pub open spec fn lookup<P>(s: Seq<(Seq<char>, P)>, k: Seq<char>) -> Option<P> {
    if has_key(s, k) {
        Some(s[key_index(s, k)].1)
    } else {
        None
    }
}

/// `s` after storing `v` under `k`: the entry is replaced in place if the key
/// is present, appended otherwise.
pub open spec fn store_insert<P>(s: Seq<(Seq<char>, P)>, k: Seq<char>, v: P) -> Seq<(Seq<char>, P)> {
    if has_key(s, k) {
        s.update(key_index(s, k), (k, v))
    } else {
        s.push((k, v))
    }
}

/// `s` without the entry for `k` (unchanged if there is none).
pub open spec fn store_remove<P>(s: Seq<(Seq<char>, P)>, k: Seq<char>) -> Seq<(Seq<char>, P)> {
    if has_key(s, k) {
        s.remove(key_index(s, k))
    } else {
        s
    }
}

/// A position that is first for its key is the one `key_index` picks.
pub proof fn lemma_key_index_is_first<P>(s: Seq<(Seq<char>, P)>, k: Seq<char>, i: int)
    requires
        is_first_index(s, k, i),
    ensures
        has_key(s, k),
        key_index(s, k) == i,
{
    let c = key_index(s, k);
    assert(is_first_index(s, k, c));
    if c < i {
        assert(s[c].0 != k);
    } else if i < c {
        assert(s[i].0 != k);
    }
}

/// When `k` is present, `key_index` picks its first position.
pub proof fn lemma_key_index_exists<P>(s: Seq<(Seq<char>, P)>, k: Seq<char>)
    requires
        has_key(s, k),
    ensures
        is_first_index(s, k, key_index(s, k)),
    decreases s.len(),
{
    let w = choose|i: int| 0 <= i < s.len() && #[trigger] s[i].0 == k;
    if s[0].0 == k {
        assert(is_first_index(s, k, 0));
    } else {
        let t = s.drop_first();
        assert(t[w - 1].0 == k);
        lemma_key_index_exists(t, k);
        let j = key_index(t, k);
        assert forall|m: int| 0 <= m < j + 1 implies #[trigger] s[m].0 != k by {
            if m > 0 {
                assert(s[m] == t[m - 1]);
            }
        }
        assert(is_first_index(s, k, j + 1));
    }
}

/// Reading a key back after storing it gives the stored value, and storing
/// under one key leaves every other key's value as it was.
pub proof fn lemma_insert_then_lookup<P>(s: Seq<(Seq<char>, P)>, k: Seq<char>, v: P, other: Seq<char>)
    ensures
        lookup(store_insert(s, k, v), k) == Some(v),
        other != k ==> lookup(store_insert(s, k, v), other) == lookup(s, other),
        store_insert(s, k, v).len() == if has_key(s, k) { s.len() } else { s.len() + 1 },
{
    let t = store_insert(s, k, v);
    if has_key(s, k) {
        lemma_key_index_exists(s, k);
        let i = key_index(s, k);
        assert(is_first_index(t, k, i));
        lemma_key_index_is_first(t, k, i);
    } else {
        assert(is_first_index(t, k, s.len() as int));
        lemma_key_index_is_first(t, k, s.len() as int);
    }
    if other != k {
        if has_key(s, other) {
            lemma_key_index_exists(s, other);
            let j = key_index(s, other);
            assert(is_first_index(t, other, j));
            lemma_key_index_is_first(t, other, j);
        } else {
            assert forall|m: int| 0 <= m < t.len() implies #[trigger] t[m].0 != other by {
                if m < s.len() && !(has_key(s, k) && m == key_index(s, k)) {
                    assert(t[m] == s[m]);
                }
            }
        }
    }
}

/// In a store with unique keys, a removed key is gone and every other key keeps
/// its value.
pub proof fn lemma_remove_then_lookup<P>(s: Seq<(Seq<char>, P)>, k: Seq<char>, other: Seq<char>)
    requires
        keys_unique(s),
    ensures
        lookup(store_remove(s, k), k) is None,
        other != k ==> lookup(store_remove(s, k), other) == lookup(s, other),
        store_remove(s, k).len() == if has_key(s, k) { s.len() - 1 } else { s.len() as int },
{
    let t = store_remove(s, k);
    if has_key(s, k) {
        lemma_key_index_exists(s, k);
        let i = key_index(s, k);
        assert forall|m: int| 0 <= m < t.len() implies #[trigger] t[m].0 != k by {
            let m0 = if m < i { m } else { m + 1 };
            assert(t[m] == s[m0]);
        }
        if other != k && has_key(s, other) {
            lemma_key_index_exists(s, other);
            let j = key_index(s, other);
            let j2 = if j < i { j } else { j - 1 };
            assert(t[j2] == s[j]);
            assert forall|m: int| 0 <= m < j2 implies #[trigger] t[m].0 != other by {
                let m0 = if m < i { m } else { m + 1 };
                assert(t[m] == s[m0]);
            }
            assert(is_first_index(t, other, j2));
            lemma_key_index_is_first(t, other, j2);
        } else if other != k {
            assert forall|m: int| 0 <= m < t.len() implies #[trigger] t[m].0 != other by {
                let m0 = if m < i { m } else { m + 1 };
                assert(t[m] == s[m0]);
            }
        }
    }
}

/// Storing and removing keep keys unique.
pub proof fn lemma_store_keeps_keys_unique<P>(s: Seq<(Seq<char>, P)>, k: Seq<char>, v: P)
    requires
        keys_unique(s),
    ensures
        keys_unique(store_insert(s, k, v)),
        keys_unique(store_remove(s, k)),
{
    let t = store_insert(s, k, v);
    if has_key(s, k) {
        lemma_key_index_exists(s, k);
        let i = key_index(s, k);
        assert forall|a: int, b: int| 0 <= a < t.len() && 0 <= b < t.len() && a != b
            implies #[trigger] t[a].0 != #[trigger] t[b].0 by {
            assert(t[a].0 == s[a].0);
            assert(t[b].0 == s[b].0);
        }
    } else {
        assert forall|a: int, b: int| 0 <= a < t.len() && 0 <= b < t.len() && a != b
            implies #[trigger] t[a].0 != #[trigger] t[b].0 by {
            if a < s.len() {
                assert(t[a] == s[a]);
            }
            if b < s.len() {
                assert(t[b] == s[b]);
            }
        }
    }
    let u = store_remove(s, k);
    if has_key(s, k) {
        let i = key_index(s, k);
        lemma_key_index_exists(s, k);
        assert forall|a: int, b: int| 0 <= a < u.len() && 0 <= b < u.len() && a != b
            implies #[trigger] u[a].0 != #[trigger] u[b].0 by {
            let a0 = if a < i { a } else { a + 1 };
            let b0 = if b < i { b } else { b + 1 };
            assert(u[a] == s[a0]);
            assert(u[b] == s[b0]);
        }
    }
}

/// Values keyed by string identifiers, in insertion order.
#[derive(Clone, Debug)]
pub struct KeyedStore<P> {
    entries: Vec<(String, P)>,
}

impl<P> View for KeyedStore<P> {
    type V = Seq<(Seq<char>, P)>;

    closed spec fn view(&self) -> Seq<(Seq<char>, P)> {
        self.entries@.map_values(|e: (String, P)| (e.0@, e.1))
    }
}

impl<P> KeyedStore<P> {
    /// An empty store.
    pub fn new() -> (r: KeyedStore<P>)
        ensures
            r@ == Seq::<(Seq<char>, P)>::empty(),
    {
        let r = KeyedStore { entries: Vec::new() };
        assert(r@ =~= Seq::<(Seq<char>, P)>::empty());
        r
    }

    /// Number of entries.
    pub fn len(&self) -> (r: usize)
        ensures
            r == self@.len(),
    {
        self.entries.len()
    }

    /// Whether the store has no entries.
    pub fn is_empty(&self) -> (r: bool)
        ensures
            r == (self@.len() == 0),
    {
        self.entries.len() == 0
    }

    /// Position of the entry with key `id`.
    pub fn index_of(&self, id: &str) -> (r: Option<usize>)
        ensures
            r is None <==> !has_key(self@, id@),
            r matches Some(i) ==> i == key_index(self@, id@) && i < self@.len(),
    {
        let n = self.entries.len();
        let mut i: usize = 0;
        while i < n
            invariant
                n == self.entries@.len(),
                n == self@.len(),
                i <= n,
                forall|j: int| 0 <= j < i ==> #[trigger] self@[j].0 != id@,
            decreases n - i,
        {
            if same_chars(self.entries[i].0.as_str(), id) {
                proof {
                    assert(is_first_index(self@, id@, i as int));
                    lemma_key_index_is_first(self@, id@, i as int);
                }
                return Some(i);
            }
            i = i + 1;
        }
        None
    }

    /// Whether an entry has key `id`.
    pub fn contains_key(&self, id: &str) -> (r: bool)
        ensures
            r == has_key(self@, id@),
    {
        self.index_of(id).is_some()
    }

    /// The value stored under `id`.
    pub fn get(&self, id: &str) -> (r: Option<&P>)
        ensures
            r is Some <==> has_key(self@, id@),
            r matches Some(v) ==> lookup(self@, id@) == Some(*v),
    {
        match self.index_of(id) {
            Some(i) => Some(&self.entries[i].1),
            None => None,
        }
    }

    /// The value of the entry at position `i`.
    pub fn value_at(&self, i: usize) -> (r: &P)
        requires
            i < self@.len(),
        ensures
            *r == self@[i as int].1,
    {
        &self.entries[i].1
    }

    /// The value of the entry at position `i`, for changing in place; the key
    /// stays as it was.
    pub fn value_at_mut(&mut self, i: usize) -> (r: &mut P)
        requires
            i < old(self)@.len(),
        ensures
            *r == old(self)@[i as int].1,
            final(self)@ == old(self)@.update(i as int, (old(self)@[i as int].0, *final(r))),
    {
        &mut self.entries[i].1
    }

    /// The key of the entry at position `i`.
    pub fn key_at(&self, i: usize) -> (r: &str)
        requires
            i < self@.len(),
        ensures
            r@ == self@[i as int].0,
    {
        self.entries[i].0.as_str()
    }

    /// Store `v` under `id`, returning the value it replaces.
    pub fn insert(&mut self, id: String, v: P) -> (r: Option<P>)
        ensures
            final(self)@ == store_insert(old(self)@, id@, v),
            r == lookup(old(self)@, id@),
    {
        let ghost before = self@;
        let ghost k = id@;
        match self.index_of(id.as_str()) {
            Some(i) => {
                let (_, old_v) = self.entries.remove(i);
                self.entries.insert(i, (id, v));
                assert(self@ =~= before.update(i as int, (k, v)));
                Some(old_v)
            },
            None => {
                self.entries.push((id, v));
                assert(self@ =~= before.push((k, v)));
                None
            },
        }
    }

    /// Remove the entry for `id`, returning its value.
    pub fn remove(&mut self, id: &str) -> (r: Option<P>)
        ensures
            final(self)@ == store_remove(old(self)@, id@),
            r == lookup(old(self)@, id@),
    {
        let ghost before = self@;
        match self.index_of(id) {
            Some(i) => {
                let (_, v) = self.entries.remove(i);
                assert(self@ =~= before.remove(i as int));
                Some(v)
            },
            None => None,
        }
    }
}

} // verus!
