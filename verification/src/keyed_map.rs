//! A small finite map kept as a vector of entries in insertion order.
//! Its abstract value is a `Map`; the order of its keys is observable as well,
//! since walking the map visits the entries in that order.

use vstd::prelude::*;

verus! {

/// Keys of a `KeyedMap`: copyable values whose executable equality is spec equality.
pub trait MapKey: Copy {
    fn same_key(&self, other: &Self) -> (r: bool)
        ensures
            r == (*self == *other),
    ;
}

impl MapKey for u64 {
    fn same_key(&self, other: &Self) -> (r: bool) {
        *self == *other
    }
}

impl MapKey for u32 {
    fn same_key(&self, other: &Self) -> (r: bool) {
        *self == *other
    }
}

/// A map from keys to values, stored as entries in the order their keys were first inserted.
#[verifier::reject_recursive_types(K)]
pub struct KeyedMap<K, V> {
    entries: Vec<(K, V)>,
    map: Ghost<Map<K, V>>,
}

impl<K: MapKey, V: Copy> KeyedMap<K, V> {
    /// The contents of the map.
    pub closed spec fn view(&self) -> Map<K, V> {
        self.map@
    }

    /// The keys of the map, in the order in which the map is walked.
    pub closed spec fn keys(&self) -> Seq<K> {
        self.entries@.map_values(|e: (K, V)| e.0)
    }

    /// The entries, in walking order.
    pub closed spec fn entries(&self) -> Seq<(K, V)> {
        self.entries@
    }

    pub closed spec fn wf(&self) -> bool {
        &&& forall|i: int, j: int|
            0 <= i < self.entries@.len() && 0 <= j < self.entries@.len() && i != j
                ==> #[trigger] self.entries@[i].0 != #[trigger] self.entries@[j].0
        &&& forall|i: int|
            0 <= i < self.entries@.len() ==> {
                &&& self.map@.contains_key(#[trigger] self.entries@[i].0)
                &&& self.map@[self.entries@[i].0] == self.entries@[i].1
            }
        &&& forall|k: K|
            #[trigger] self.map@.contains_key(k) ==> exists|i: int|
                0 <= i < self.entries@.len() && #[trigger] self.entries@[i].0 == k
    }

    /// What the well-formedness of the map gives its users: the walking order lists
    /// every key exactly once, and the entries carry the map's values.
    pub proof fn lemma_wf(&self)
        requires
            self.wf(),
        ensures
            self.keys().len() == self.entries().len(),
            self.keys().no_duplicates(),
            self.keys().to_set() =~= self@.dom(),
            forall|i: int|
                0 <= i < self.entries().len() ==> {
                    &&& #[trigger] self.entries()[i].0 == self.keys()[i]
                    &&& self@.contains_key(self.entries()[i].0)
                    &&& self@[self.entries()[i].0] == self.entries()[i].1
                },
    {
        assert forall|k: K| self.keys().to_set().contains(k) <==> self@.dom().contains(k) by {
            if self@.dom().contains(k) {
                let i = choose|i: int| 0 <= i < self.entries@.len() && #[trigger] self.entries@[i].0 == k;
                assert(self.keys()[i] == k);
            }
            if self.keys().to_set().contains(k) {
                let i = choose|i: int| 0 <= i < self.keys().len() && self.keys()[i] == k;
                assert(self.entries@[i].0 == k);
            }
        }
        assert forall|i: int, j: int|
            0 <= i < self.keys().len() && 0 <= j < self.keys().len() && i != j
                implies self.keys()[i] != self.keys()[j] by {
            assert(self.entries@[i].0 != self.entries@[j].0);
        }
    }

    pub fn new() -> (r: Self)
        ensures
            r.wf(),
            r@ == Map::<K, V>::empty(),
            r.keys() == Seq::<K>::empty(),
    {
        let r = KeyedMap { entries: Vec::new(), map: Ghost(Map::empty()) };
        assert(r.keys() =~= Seq::<K>::empty());
        r
    }

    pub fn len(&self) -> (r: usize)
        requires
            self.wf(),
        ensures
            r == self.keys().len(),
    {
        self.entries.len()
    }

    /// The entry at position `i` of the walking order.
    pub fn entry_at(&self, i: usize) -> (r: (K, V))
        requires
            self.wf(),
            i < self.keys().len(),
        ensures
            r == self.entries()[i as int],
            r.0 == self.keys()[i as int],
            self@.contains_key(r.0),
            self@[r.0] == r.1,
    {
        self.entries[i]
    }

    fn find(&self, k: &K) -> (r: Option<usize>)
        requires
            self.wf(),
        ensures
            match r {
                Some(i) => i < self.entries@.len() && self.entries@[i as int].0 == *k,
                None => !self@.contains_key(*k),
            },
    {
        let mut i: usize = 0;
        while i < self.entries.len()
            invariant
                self.wf(),
                i <= self.entries@.len(),
                forall|j: int| 0 <= j < i ==> self.entries@[j].0 != *k,
            decreases self.entries@.len() - i,
        {
            if self.entries[i].0.same_key(k) {
                return Some(i);
            }
            i = i + 1;
        }
        None
    }

    pub fn get(&self, k: &K) -> (r: Option<V>)
        requires
            self.wf(),
        ensures
            r == self@.get(*k),
    {
        match self.find(k) {
            Some(i) => Some(self.entries[i].1),
            None => None,
        }
    }

    pub fn contains_key(&self, k: &K) -> (r: bool)
        requires
            self.wf(),
        ensures
            r == self@.contains_key(*k),
    {
        self.find(k).is_some()
    }

    /// Sets the value of `k`. A new key goes to the end of the walking order;
    /// a present key keeps its place.
    pub fn insert(&mut self, k: K, v: V)
        requires
            old(self).wf(),
        ensures
            final(self).wf(),
            final(self)@ == old(self)@.insert(k, v),
            final(self).keys() == (if old(self)@.contains_key(k) {
                old(self).keys()
            } else {
                old(self).keys().push(k)
            }),
    {
        match self.find(&k) {
            Some(i) => {
                self.entries.set(i, (k, v));
                self.map = Ghost(self.map@.insert(k, v));
                assert(self.keys() =~= old(self).keys()) by {
                    assert forall|j: int| 0 <= j < self.keys().len() implies self.keys()[j] == old(self).keys()[j] by {
                        if j != i {
                            assert(self.entries@[j] == old(self).entries@[j]);
                        }
                    }
                }
                assert forall|kk: K| #[trigger] self.map@.contains_key(kk) implies exists|j: int|
                    0 <= j < self.entries@.len() && #[trigger] self.entries@[j].0 == kk by {
                    if kk == k {
                        assert(self.entries@[i as int].0 == kk);
                    } else {
                        let j = choose|j: int| 0 <= j < old(self).entries@.len() && #[trigger] old(self).entries@[j].0 == kk;
                        assert(self.entries@[j].0 == kk);
                    }
                }
            },
            None => {
                self.entries.push((k, v));
                self.map = Ghost(self.map@.insert(k, v));
                assert(self.keys() =~= old(self).keys().push(k));
                assert forall|kk: K| #[trigger] self.map@.contains_key(kk) implies exists|j: int|
                    0 <= j < self.entries@.len() && #[trigger] self.entries@[j].0 == kk by {
                    if kk == k {
                        assert(self.entries@[self.entries@.len() - 1].0 == kk);
                    } else {
                        let j = choose|j: int| 0 <= j < old(self).entries@.len() && #[trigger] old(self).entries@[j].0 == kk;
                        assert(self.entries@[j].0 == kk);
                    }
                }
            },
        }
    }

    /// Removes `k`; the other keys keep their relative order.
    pub fn remove(&mut self, k: K)
        requires
            old(self).wf(),
        ensures
            final(self).wf(),
            final(self)@ == old(self)@.remove(k),
            final(self).keys() == old(self).keys().filter(other_than(k)),
    {
        proof { self.lemma_wf(); }
        match self.find(&k) {
            Some(i) => {
                let ghost old_entries = self.entries@;
                self.entries.remove(i);
                self.map = Ghost(self.map@.remove(k));
                assert forall|kk: K| #[trigger] self.map@.contains_key(kk) implies exists|j: int|
                    0 <= j < self.entries@.len() && #[trigger] self.entries@[j].0 == kk by {
                    let j = choose|j: int| 0 <= j < old_entries.len() && #[trigger] old_entries[j].0 == kk;
                    if j < i {
                        assert(self.entries@[j].0 == kk);
                    } else {
                        assert(self.entries@[j - 1].0 == kk);
                    }
                }
                proof { lemma_filter_out_unique(old(self).keys(), i as int, k); }
                assert(self.keys() =~= old(self).keys().remove(i as int));
            },
            None => {
                assert(self.map@ =~= old(self).map@.remove(k));
                proof { lemma_filter_out_absent(old(self).keys(), k); }
            },
        }
    }

    /// The map that writes the pairs one after the other: a later pair for a key replaces
    /// an earlier one, and keys are walked in the order of their first pair.
    pub fn from_pairs(pairs: &Vec<(K, V)>) -> (r: Self)
        ensures
            r.wf(),
            r@ == map_of(pairs@),
            r.keys() == keys_of(pairs@),
    {
        let mut r = Self::new();
        let mut i: usize = 0;
        while i < pairs.len()
            invariant
                0 <= i <= pairs@.len(),
                r.wf(),
                r@ == map_of(pairs@.take(i as int)),
                r.keys() == keys_of(pairs@.take(i as int)),
            decreases pairs@.len() - i,
        {
            let (k, v) = pairs[i];
            r.insert(k, v);
            assert(pairs@.take(i + 1).drop_last() =~= pairs@.take(i as int));
            i = i + 1;
        }
        assert(pairs@.take(pairs@.len() as int) =~= pairs@);
        r
    }

    /// The entries, in walking order.
    pub fn to_vec(&self) -> (r: Vec<(K, V)>)
        requires
            self.wf(),
        ensures
            r@ == self.entries(),
            r@.map_values(|e: (K, V)| e.0) == self.keys(),
            lists_exactly(r@, self@),
    {
        proof { self.lemma_wf(); }
        assert forall|k: K| #[trigger] self@.contains_key(k) implies exists|i: int|
            0 <= i < self.entries@.len() && self.entries@[i].0 == k by {
            let i = choose|i: int| 0 <= i < self.entries@.len() && #[trigger] self.entries@[i].0 == k;
        }
        let mut r: Vec<(K, V)> = Vec::new();
        let mut i: usize = 0;
        while i < self.entries.len()
            invariant
                0 <= i <= self.entries@.len(),
                r@ == self.entries@.take(i as int),
            decreases self.entries@.len() - i,
        {
            r.push(self.entries[i]);
            assert(r@ =~= self.entries@.take(i + 1));
            i = i + 1;
        }
        assert(r@ =~= self.entries@);
        r
    }

    /// Removes every entry.
    pub fn clear(&mut self)
        ensures
            final(self).wf(),
            final(self)@ == Map::<K, V>::empty(),
            final(self).keys() == Seq::<K>::empty(),
    {
        self.entries.clear();
        self.map = Ghost(Map::empty());
        assert(self.keys() =~= Seq::<K>::empty());
    }
}

/// The map that writes `pairs` one after the other.
pub open spec fn map_of<K, V>(pairs: Seq<(K, V)>) -> Map<K, V>
    decreases pairs.len(),
{
    if pairs.len() == 0 {
        Map::empty()
    } else {
        map_of(pairs.drop_last()).insert(pairs.last().0, pairs.last().1)
    }
}

/// The keys of `pairs`, each once, in the order of their first occurrence.
pub open spec fn keys_of<K, V>(pairs: Seq<(K, V)>) -> Seq<K>
    decreases pairs.len(),
{
    if pairs.len() == 0 {
        Seq::empty()
    } else {
        let ks = keys_of(pairs.drop_last());
        if map_of(pairs.drop_last()).contains_key(pairs.last().0) {
            ks
        } else {
            ks.push(pairs.last().0)
        }
    }
}

/// `entries` lists the entries of `m`, each key once.
pub open spec fn lists_exactly<K, V>(entries: Seq<(K, V)>, m: Map<K, V>) -> bool {
    &&& forall|i: int, j: int|
        0 <= i < entries.len() && 0 <= j < entries.len() && i != j ==> #[trigger] entries[i].0
            != #[trigger] entries[j].0
    &&& forall|i: int|
        0 <= i < entries.len() ==> m.contains_key(#[trigger] entries[i].0) && m[entries[i].0]
            == entries[i].1
    &&& forall|k: K|
        #[trigger] m.contains_key(k) ==> exists|i: int| 0 <= i < entries.len() && entries[i].0 == k
}

/// Writing out the entries of a map and building a map from them again gives back the map,
/// and walks its keys in the order in which they were written out.
pub proof fn law_pairs_round_trip<K, V>(entries: Seq<(K, V)>, m: Map<K, V>)
    requires
        lists_exactly(entries, m),
    ensures
        map_of(entries) == m,
        keys_of(entries) == entries.map_values(|e: (K, V)| e.0),
    decreases entries.len(),
{
    if entries.len() == 0 {
        assert(m =~= Map::<K, V>::empty()) by {
            assert forall|k: K| !m.contains_key(k) by {
                if m.contains_key(k) {
                    let i = choose|i: int| 0 <= i < entries.len() && entries[i].0 == k;
                }
            }
        }
        assert(entries.map_values(|e: (K, V)| e.0) =~= Seq::<K>::empty());
    } else {
        let t = entries.drop_last();
        let (k, v) = entries.last();
        let n = m.remove(k);
        assert forall|i: int| 0 <= i < t.len() implies n.contains_key(#[trigger] t[i].0) && n[t[i].0] == t[i].1 by {
            assert(entries[i] == t[i]);
            assert(entries[i].0 != entries[entries.len() - 1].0);
        }
        assert forall|kk: K| #[trigger] n.contains_key(kk) implies exists|i: int| 0 <= i < t.len() && t[i].0 == kk by {
            let i = choose|i: int| 0 <= i < entries.len() && entries[i].0 == kk;
            assert(t[i].0 == kk);
        }
        assert forall|i: int, j: int| 0 <= i < t.len() && 0 <= j < t.len() && i != j implies #[trigger] t[i].0 != #[trigger] t[j].0 by {
            assert(entries[i] == t[i] && entries[j] == t[j]);
        }
        law_pairs_round_trip(t, n);
        assert(m.contains_key(k) && m[k] == v) by {
            assert(entries[entries.len() - 1] == (k, v));
        }
        assert(map_of(entries) =~= m);
        assert(entries.map_values(|e: (K, V)| e.0) =~= t.map_values(|e: (K, V)| e.0).push(k));
    }
}

/// Holds of every value but `k`.
pub open spec fn other_than<K>(k: K) -> spec_fn(K) -> bool {
    |x: K| x != k
}

/// Filtering out a value that occurs only at position `i` removes position `i`.
proof fn lemma_filter_out_unique<K>(s: Seq<K>, i: int, k: K)
    requires
        0 <= i < s.len(),
        s[i] == k,
        s.no_duplicates(),
    ensures
        s.filter(other_than(k)) == s.remove(i),
    decreases s.len(),
{
    let f = other_than(k);
    let t = s.drop_last();
    assert(t.push(s.last()) =~= s);
    t.lemma_filter_push(s.last(), f);
    if i == s.len() - 1 {
        assert(!t.contains(k)) by {
            if t.contains(k) {
                let j = choose|j: int| 0 <= j < t.len() && t[j] == k;
                assert(s[j] == s[i]);
            }
        }
        lemma_filter_out_absent(t, k);
        assert(s.remove(i) =~= t);
    } else {
        assert(t.no_duplicates());
        lemma_filter_out_unique(t, i, k);
        assert(s.last() != k);
        assert(s.remove(i) =~= t.remove(i).push(s.last()));
    }
}

/// Filtering out a value that does not occur changes nothing.
proof fn lemma_filter_out_absent<K>(s: Seq<K>, k: K)
    requires
        !s.contains(k),
    ensures
        s.filter(other_than(k)) == s,
    decreases s.len(),
{
    let f = other_than(k);
    if s.len() == 0 {
        reveal(Seq::filter);
        assert(s.filter(f) =~= s);
    } else {
        let t = s.drop_last();
        assert(t.push(s.last()) =~= s);
        assert(!t.contains(k)) by {
            if t.contains(k) {
                let j = choose|j: int| 0 <= j < t.len() && t[j] == k;
                assert(s[j] == k);
            }
        }
        assert(s[s.len() - 1] != k);
        lemma_filter_out_absent(t, k);
        t.lemma_filter_push(s.last(), f);
    }
}

} // verus!
