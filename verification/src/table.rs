//! Small keyed tables: a list of entries whose keys are distinct, seen as a
//! map from keys to values.

use vstd::prelude::*;
use std::any::TypeId;

verus! {

/// `std::any::TypeId`, the identity of a type, carried as an opaque value.
#[verifier::external_type_specification]
#[verifier::external_body]
pub struct ExTypeId(TypeId);

/// `TypeId`'s `==`: two type identities are equal exactly when they are the
/// same value.
#[verifier::external_body]
fn type_ids_equal(a: &TypeId, b: &TypeId) -> (r: bool)
    ensures
        r == (*a == *b),
{
    a == b
}

/// A value that can key a table: it has a mathematical key, and two keys
/// can be compared.
pub trait TableKey: Sized {
    type KeyView;

    spec fn key_view(&self) -> Self::KeyView;

    fn same_key(&self, other: &Self) -> (b: bool)
        ensures
            b == (self.key_view() == other.key_view()),
    ;

    fn copy_key(&self) -> (k: Self)
        ensures
            k.key_view() == self.key_view(),
    ;
}

impl TableKey for TypeId {
    type KeyView = TypeId;

    open spec fn key_view(&self) -> TypeId {
        *self
    }

    fn same_key(&self, other: &Self) -> (b: bool) {
        type_ids_equal(self, other)
    }

    fn copy_key(&self) -> (k: Self) {
        *self
    }
}

impl TableKey for String {
    type KeyView = Seq<char>;

    open spec fn key_view(&self) -> Seq<char> {
        self@
    }

    fn same_key(&self, other: &Self) -> (b: bool) {
        *self == *other
    }

    fn copy_key(&self) -> (k: Self) {
        self.clone()
    }
}

/// Entries with distinct keys.
pub struct Table<K, X> {
    entries: Vec<(K, X)>,
}

impl<K: TableKey, X> Table<K, X> {
    pub closed spec fn entries(&self) -> Seq<(K, X)> {
        self.entries@
    }

    /// The keys of the entries, in order.
    pub closed spec fn keys(&self) -> Seq<K::KeyView> {
        self.entries@.map_values(|e: (K, X)| e.0.key_view())
    }

    /// Whether `k` keys an entry.
    pub open spec fn has(&self, k: K::KeyView) -> bool {
        self.keys().contains(k)
    }

    /// The position of the entry keyed `k` (meaningful when there is one).
    pub closed spec fn index_of(&self, k: K::KeyView) -> int {
        choose|i: int| 0 <= i < self.entries@.len() && self.entries@[i].0.key_view() == k
    }

    /// The value keyed `k`.
    pub closed spec fn value(&self, k: K::KeyView) -> X {
        self.entries@[self.index_of(k)].1
    }

    /// The table as a map.
    pub open spec fn map(&self) -> Map<K::KeyView, X> {
        Map::new(|k: K::KeyView| self.has(k), |k: K::KeyView| self.value(k))
    }

    pub closed spec fn wf(&self) -> bool {
        forall|i: int, j: int|
            0 <= i < self.entries@.len() && 0 <= j < self.entries@.len() && i != j
                ==> #[trigger] self.entries@[i].0.key_view() != #[trigger] self.entries@[j].0.key_view()
    }

    proof fn lemma_index(&self, i: int)
        requires
            self.wf(),
            0 <= i < self.entries@.len(),
        ensures
            self.has(self.entries@[i].0.key_view()),
            self.index_of(self.entries@[i].0.key_view()) == i,
    {
        assert(self.keys()[i] == self.entries@[i].0.key_view());
        let j = self.index_of(self.entries@[i].0.key_view());
        assert(self.entries@[j].0.key_view() == self.entries@[i].0.key_view());
    }

    proof fn lemma_has(&self, k: K::KeyView)
        requires
            self.has(k),
        ensures
            0 <= self.index_of(k) < self.entries@.len(),
            self.entries@[self.index_of(k)].0.key_view() == k,
    {
        let i = choose|i: int| 0 <= i < self.keys().len() && self.keys()[i] == k;
        assert(self.entries@[i].0.key_view() == k);
    }

    /// An empty table.
    pub fn new() -> (t: Self)
        ensures
            t.wf(),
            t.map() == Map::<K::KeyView, X>::empty(),
    {
        let t = Table { entries: Vec::new() };
        assert(t.map() =~= Map::<K::KeyView, X>::empty());
        t
    }

    /// The position of the entry keyed like `k`.
    fn find(&self, k: &K) -> (r: Option<usize>)
        requires
            self.wf(),
        ensures
            match r {
                Some(i) => i < self.entries@.len() && self.index_of(k.key_view()) == i
                    && self.has(k.key_view()),
                None => !self.has(k.key_view()),
            },
    {
        let mut i: usize = 0;
        while i < self.entries.len()
            invariant
                self.wf(),
                i <= self.entries.len(),
                forall|m: int| 0 <= m < i ==> self.entries@[m].0.key_view() != k.key_view(),
            decreases self.entries.len() - i,
        {
            if self.entries[i].0.same_key(k) {
                proof {
                    self.lemma_index(i as int);
                }
                return Some(i);
            }
            i = i + 1;
        }
        proof {
            if self.has(k.key_view()) {
                self.lemma_has(k.key_view());
            }
        }
        None
    }

    /// Whether an entry is keyed like `k`.
    pub fn contains(&self, k: &K) -> (b: bool)
        requires
            self.wf(),
        ensures
            b == self.map().contains_key(k.key_view()),
    {
        self.find(k).is_some()
    }

    /// The value keyed like `k`, if there is one.
    pub fn get(&self, k: &K) -> (r: Option<&X>)
        requires
            self.wf(),
        ensures
            match r {
                Some(x) => self.map().contains_key(k.key_view()) && *x == self.map()[k.key_view()],
                None => !self.map().contains_key(k.key_view()),
            },
    {
        match self.find(k) {
            Some(i) => Some(&self.entries[i].1),
            None => None,
        }
    }

    /// Keys `x` by `k`, replacing the value of an entry keyed alike.
    pub fn insert(&mut self, k: K, x: X)
        requires
            old(self).wf(),
        ensures
            final(self).wf(),
            final(self).map() == old(self).map().insert(k.key_view(), x),
    {
        let ghost old_map = self.map();
        let ghost kv = k.key_view();
        match self.find(&k) {
            Some(i) => {
                let ghost before = self.entries@;
                self.entries.set(i, (k, x));
                proof {
                    assert forall|a: int, b: int|
                        0 <= a < self.entries@.len() && 0 <= b < self.entries@.len() && a != b
                            implies #[trigger] self.entries@[a].0.key_view()
                        != #[trigger] self.entries@[b].0.key_view() by {
                        assert(before[a].0.key_view() != before[b].0.key_view());
                        assert(before[i as int].0.key_view() == kv);
                    }
                    assert forall|key: K::KeyView| #[trigger] self.has(key) == old_map.insert(kv, x).contains_key(key) by {
                        if self.has(key) {
                            self.lemma_has(key);
                            let m = self.index_of(key);
                            if m != i {
                                assert(before[m].0.key_view() == key);
                                assert(old(self).keys()[m] == key);
                            }
                        }
                        if old_map.contains_key(key) {
                            old(self).lemma_has(key);
                            let m = old(self).index_of(key);
                            assert(self.keys()[m] == key);
                        }
                        if key == kv {
                            assert(self.keys()[i as int] == kv);
                        }
                    }
                    assert forall|key: K::KeyView| self.has(key) implies #[trigger] self.value(key) == old_map.insert(kv, x)[key] by {
                        self.lemma_has(key);
                        let m = self.index_of(key);
                        if m == i {
                            assert(key == kv);
                        } else {
                            assert(before[m].0.key_view() == key);
                            old(self).lemma_index(m);
                        }
                    }
                    assert(self.map() =~= old_map.insert(kv, x));
                }
            },
            None => {
                let ghost before = self.entries@;
                self.entries.push((k, x));
                proof {
                    let n = before.len() as int;
                    assert forall|a: int, b: int|
                        0 <= a < self.entries@.len() && 0 <= b < self.entries@.len() && a != b
                            implies #[trigger] self.entries@[a].0.key_view()
                        != #[trigger] self.entries@[b].0.key_view() by {
                        if a < n && b < n {
                            assert(before[a].0.key_view() != before[b].0.key_view());
                        } else if a < n {
                            assert(old(self).keys()[a] == before[a].0.key_view());
                        } else {
                            assert(old(self).keys()[b] == before[b].0.key_view());
                        }
                    }
                    assert forall|key: K::KeyView| #[trigger] self.has(key) == old_map.insert(kv, x).contains_key(key) by {
                        if self.has(key) {
                            self.lemma_has(key);
                            let m = self.index_of(key);
                            if m < n {
                                assert(old(self).keys()[m] == key);
                            }
                        }
                        if old_map.contains_key(key) {
                            old(self).lemma_has(key);
                            let m = old(self).index_of(key);
                            assert(self.keys()[m] == key);
                        }
                        if key == kv {
                            assert(self.keys()[n] == kv);
                        }
                    }
                    assert forall|key: K::KeyView| self.has(key) implies #[trigger] self.value(key) == old_map.insert(kv, x)[key] by {
                        self.lemma_has(key);
                        let m = self.index_of(key);
                        if m == n {
                            assert(key == kv);
                        } else {
                            assert(before[m].0.key_view() == key);
                            old(self).lemma_index(m);
                            assert(key != kv);
                        }
                    }
                    assert(self.map() =~= old_map.insert(kv, x));
                }
            },
        }
    }

    /// Removes the entry keyed like `k`, giving back its value.
    pub fn remove(&mut self, k: &K) -> (r: Option<X>)
        requires
            old(self).wf(),
        ensures
            final(self).wf(),
            final(self).map() == old(self).map().remove(k.key_view()),
            match r {
                Some(x) => old(self).map().contains_key(k.key_view()) && x == old(self).map()[k.key_view()],
                None => !old(self).map().contains_key(k.key_view()),
            },
    {
        let ghost old_map = self.map();
        let ghost kv = k.key_view();
        match self.find(k) {
            Some(i) => {
                let ghost before = self.entries@;
                let (_, x) = self.entries.remove(i);
                proof {
                    let n = before.len() as int;
                    assert(self.entries@ =~= before.subrange(0, i as int) + before.subrange(i + 1, n));
                    assert forall|a: int| 0 <= a < self.entries@.len() implies #[trigger] self.entries@[a]
                        == before[if a < i { a } else { a + 1 }] by {}
                    assert forall|a: int, b: int|
                        0 <= a < self.entries@.len() && 0 <= b < self.entries@.len() && a != b
                            implies #[trigger] self.entries@[a].0.key_view()
                        != #[trigger] self.entries@[b].0.key_view() by {
                        let a2 = if a < i { a } else { a + 1 };
                        let b2 = if b < i { b } else { b + 1 };
                        assert(before[a2].0.key_view() != before[b2].0.key_view());
                    }
                    assert forall|key: K::KeyView| #[trigger] self.has(key) == old_map.remove(kv).contains_key(key) by {
                        if self.has(key) {
                            self.lemma_has(key);
                            let m = self.index_of(key);
                            let m2 = if m < i { m } else { m + 1 };
                            assert(before[m2].0.key_view() == key);
                            assert(old(self).keys()[m2] == key);
                            assert(key != kv) by {
                                assert(before[i as int].0.key_view() == kv);
                            }
                        }
                        if old_map.contains_key(key) && key != kv {
                            old(self).lemma_has(key);
                            let m = old(self).index_of(key);
                            assert(m != i);
                            let m1 = if m < i { m } else { m - 1 };
                            assert(self.entries@[m1] == before[m]);
                            assert(self.keys()[m1] == key);
                        }
                    }
                    assert forall|key: K::KeyView| self.has(key) implies #[trigger] self.value(key) == old_map.remove(kv)[key] by {
                        self.lemma_has(key);
                        let m = self.index_of(key);
                        let m2 = if m < i { m } else { m + 1 };
                        assert(before[m2].0.key_view() == key);
                        old(self).lemma_index(m2);
                        assert(before[i as int].0.key_view() == kv);
                    }
                    assert(self.map() =~= old_map.remove(kv));
                    old(self).lemma_index(i as int);
                }
                Some(x)
            },
            None => {
                assert(self.map() =~= old_map.remove(kv));
                None
            },
        }
    }

    /// How many entries there are.
    pub fn len(&self) -> (n: usize)
        requires
            self.wf(),
        ensures
            n == self.map().len(),
    {
        proof {
            self.lemma_len();
        }
        self.entries.len()
    }

    proof fn lemma_len(&self)
        requires
            self.wf(),
        ensures
            self.map().dom().finite(),
            self.map().len() == self.entries@.len(),
    {
        assert(self.keys().no_duplicates()) by {
            assert forall|a: int, b: int| 0 <= a < self.keys().len() && 0 <= b < self.keys().len() && a != b
                implies self.keys()[a] != self.keys()[b] by {
                assert(self.entries@[a].0.key_view() != self.entries@[b].0.key_view());
            }
        }
        self.keys().unique_seq_to_set();
        assert(self.map().dom() =~= self.keys().to_set());
    }

    /// The key of the entry at position `i`, and its value.
    pub fn entry(&self, i: usize) -> (r: (&K, &X))
        requires
            self.wf(),
            i < self.keys().len(),
        ensures
            self.map().contains_key(r.0.key_view()),
            *r.1 == self.map()[r.0.key_view()],
            r.0.key_view() == self.keys()[i as int],
    {
        proof {
            self.lemma_index(i as int);
        }
        (&self.entries[i].0, &self.entries[i].1)
    }

    /// How many entries the table lists (the same as its map's size).
    pub fn count(&self) -> (n: usize)
        ensures
            n == self.keys().len(),
    {
        self.entries.len()
    }

    /// The keys, in order.
    pub fn key_list(&self) -> (v: Vec<K>)
        ensures
            v@.map_values(|k: K| k.key_view()) == self.keys(),
    {
        let mut v: Vec<K> = Vec::new();
        let mut i: usize = 0;
        while i < self.entries.len()
            invariant
                i <= self.entries.len(),
                v@.map_values(|k: K| k.key_view()) == self.keys().subrange(0, i as int),
            decreases self.entries.len() - i,
        {
            let ghost before = v@;
            v.push(self.entries[i].0.copy_key());
            assert(v@.map_values(|k: K| k.key_view()) =~= before.map_values(|k: K| k.key_view()).push(self.keys()[i as int]));
            assert(self.keys().subrange(0, i + 1) =~= self.keys().subrange(0, i as int).push(self.keys()[i as int]));
            i = i + 1;
        }
        assert(self.keys().subrange(0, self.entries.len() as int) =~= self.keys());
        v
    }

    /// Every key of the table lists is among its map's keys.
    pub proof fn lemma_keys(&self)
        requires
            self.wf(),
        ensures
            forall|i: int| 0 <= i < self.keys().len() ==> self.map().contains_key(#[trigger] self.keys()[i]),
            forall|k: K::KeyView| self.map().contains_key(k) ==> self.keys().contains(k),
            self.keys().no_duplicates(),
    {
        assert forall|i: int| 0 <= i < self.keys().len() implies self.map().contains_key(#[trigger] self.keys()[i]) by {
            self.lemma_index(i);
        }
        assert forall|a: int, b: int| 0 <= a < self.keys().len() && 0 <= b < self.keys().len() && a != b
            implies self.keys()[a] != self.keys()[b] by {
            assert(self.entries@[a].0.key_view() != self.entries@[b].0.key_view());
        }
    }
}

} // verus!
