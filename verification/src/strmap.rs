//! A small map from strings to copyable values that remembers the order in
//! which its keys were first inserted.
//!
//! It stands where a `HashMap<String, _>` would: vstd specifies `HashMap`
//! only for key types that obey its key model, which it establishes for
//! integer keys and not for `String`, so nothing could be proved of a map
//! keyed by strings. Keeping the keys in a vector also fixes the order in
//! which they are walked, where a hash map's order depends on its seed.

use vstd::prelude::*;
use crate::text::str_eq;

verus! {

/// A map from strings to values. Each key is stored once; a key that is
/// inserted again keeps its place and takes the new value.
pub struct TextMap<V> {
    keys: Vec<String>,
    vals: Vec<V>,
}

impl<V: Copy> TextMap<V> {
    /// The keys, in the order in which they were first inserted.
    pub closed spec fn key_seq(&self) -> Seq<Seq<char>> {
        self.keys@.map_values(|k: String| k@)
    }

    /// The values, in key order.
    pub closed spec fn val_seq(&self) -> Seq<V> {
        self.vals@
    }

    /// Keys and values line up and no key is stored twice.
    pub closed spec fn wf(&self) -> bool {
        &&& self.keys@.len() == self.vals@.len()
        &&& self.key_seq().no_duplicates()
    }

    /// The map from each key to its value.
    pub open spec fn map(&self) -> Map<Seq<char>, V> {
        Map::new(
            |k: Seq<char>| self.key_seq().contains(k),
            |k: Seq<char>| self.val_seq()[self.key_seq().index_of(k)],
        )
    }

    pub proof fn lemma_wf_lengths(&self)
        requires
            self.wf(),
        ensures
            self.key_seq().len() == self.val_seq().len(),
            self.key_seq().no_duplicates(),
    {
    }

    /// The value stored with the `i`-th key is what the map gives for it.
    pub proof fn lemma_map_at(&self, i: int)
        requires
            self.wf(),
            0 <= i < self.key_seq().len(),
        ensures
            self.map().contains_key(self.key_seq()[i]),
            self.map()[self.key_seq()[i]] == self.val_seq()[i],
    {
        let k = self.key_seq()[i];
        assert(self.key_seq().contains(k));
        let j = self.key_seq().index_of(k);
        assert(0 <= j < self.key_seq().len() && self.key_seq()[j] == k);
    }

    pub fn new() -> (m: Self)
        ensures
            m.wf(),
            m.key_seq() == Seq::<Seq<char>>::empty(),
            m.map() == Map::<Seq<char>, V>::empty(),
    {
        let m = TextMap { keys: Vec::new(), vals: Vec::new() };
        assert(m.key_seq() =~= Seq::<Seq<char>>::empty());
        assert(m.map() =~= Map::<Seq<char>, V>::empty());
        m
    }

    pub fn len(&self) -> (n: usize)
        requires
            self.wf(),
        ensures
            n == self.key_seq().len(),
    {
        self.keys.len()
    }

    pub fn key_at(&self, i: usize) -> (k: &String)
        requires
            self.wf(),
            i < self.key_seq().len(),
        ensures
            k@ == self.key_seq()[i as int],
    {
        &self.keys[i]
    }

    pub fn value_at(&self, i: usize) -> (v: V)
        requires
            self.wf(),
            i < self.key_seq().len(),
        ensures
            v == self.val_seq()[i as int],
    {
        self.vals[i]
    }

    fn position(&self, k: &str) -> (r: Option<usize>)
        requires
            self.wf(),
        ensures
            r matches Some(i) ==> i < self.key_seq().len() && self.key_seq()[i as int] == k@,
            r is None ==> !self.key_seq().contains(k@),
    {
        let mut i: usize = 0;
        while i < self.keys.len()
            invariant
                self.wf(),
                i <= self.keys@.len(),
                forall|j: int| 0 <= j < i ==> self.key_seq()[j] != k@,
            decreases self.keys@.len() - i,
        {
            if str_eq(self.keys[i].as_str(), k) {
                return Some(i);
            }
            i += 1;
        }
        None
    }

    /// The value stored under `k`, if any.
    pub fn get(&self, k: &str) -> (r: Option<V>)
        requires
            self.wf(),
        ensures
            r == (if self.map().contains_key(k@) { Some(self.map()[k@]) } else { None::<V> }),
    {
        match self.position(k) {
            Some(i) => {
                proof {
                    self.lemma_map_at(i as int);
                }
                Some(self.vals[i])
            },
            None => None,
        }
    }

    /// Stores `v` under `k`, replacing any earlier value; a new key goes last.
    pub fn insert(&mut self, k: String, v: V)
        requires
            old(self).wf(),
        ensures
            final(self).wf(),
            final(self).map() == old(self).map().insert(k@, v),
            final(self).key_seq() == (if old(self).key_seq().contains(k@) {
                old(self).key_seq()
            } else {
                old(self).key_seq().push(k@)
            }),
    {
        let ghost ks = self.key_seq();
        match self.position(k.as_str()) {
            Some(i) => {
                self.vals.set(i, v);
                proof {
                    assert(self.key_seq() =~= ks);
                    assert forall|q: Seq<char>| #[trigger] self.map().contains_key(q) implies self.map()[q] == old(self).map().insert(k@, v)[q] by {
                        let j = self.key_seq().index_of(q);
                        let j0 = old(self).key_seq().index_of(q);
                        assert(0 <= j < ks.len() && ks[j] == q);
                        if q == k@ {
                            assert(j == i);
                        } else {
                            assert(j0 == j);
                        }
                    }
                    assert(self.map() =~= old(self).map().insert(k@, v));
                }
            },
            None => {
                self.keys.push(k);
                self.vals.push(v);
                proof {
                    assert(self.key_seq() =~= ks.push(k@));
                    let n = ks.len() as int;
                    assert forall|a: int, b: int| 0 <= a < self.key_seq().len() && 0 <= b < self.key_seq().len() && a != b implies self.key_seq()[a] != self.key_seq()[b] by {
                        if a == n {
                            assert(!ks.contains(k@));
                            assert(ks[b] == self.key_seq()[b]);
                        } else if b == n {
                            assert(!ks.contains(k@));
                            assert(ks[a] == self.key_seq()[a]);
                        }
                    }
                    assert forall|q: Seq<char>| #[trigger] self.map().contains_key(q) implies self.map()[q] == old(self).map().insert(k@, v)[q] by {
                        let j = self.key_seq().index_of(q);
                        assert(0 <= j < self.key_seq().len() && self.key_seq()[j] == q);
                        if q == k@ {
                            assert(j == n);
                        } else {
                            let j0 = ks.index_of(q);
                            assert(ks.contains(q)) by {
                                assert(j < n);
                                assert(ks[j] == q);
                            }
                            assert(0 <= j0 < n && ks[j0] == q);
                            assert(self.key_seq()[j0] == q);
                            assert(j0 == j);
                        }
                    }
                    assert forall|q: Seq<char>| old(self).map().insert(k@, v).contains_key(q) implies #[trigger] self.map().contains_key(q) by {
                        if q != k@ {
                            let j0 = ks.index_of(q);
                            assert(self.key_seq()[j0] == q);
                        } else {
                            assert(self.key_seq()[n] == q);
                        }
                    }
                    assert(self.map() =~= old(self).map().insert(k@, v));
                }
            },
        }
    }
}

/// What a lookup gives back after a store: the stored value for the key
/// that was stored, and the earlier answer for any other key.
pub proof fn lemma_get_after_insert<V>(m: Map<Seq<char>, V>, k: Seq<char>, v: V, q: Seq<char>)
    ensures
        ({
            let after = m.insert(k, v);
            let found = if after.contains_key(q) { Some(after[q]) } else { None::<V> };
            let before = if m.contains_key(q) { Some(m[q]) } else { None::<V> };
            &&& q == k ==> found == Some(v)
            &&& q != k ==> found == before
        }),
{
}

} // verus!
