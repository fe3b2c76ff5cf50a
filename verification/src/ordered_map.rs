//! An insertion-ordered map kept in two parallel double-ended queues, and
//! the key generator of the ordered-map benchmarks.

use std::collections::VecDeque;
use vstd::laws_eq::obeys_concrete_eq;
use vstd::std_specs::cmp::PartialEqSpec;
use vstd::prelude::*;

verus! {

/// An association list in insertion order: `keys[i]` maps to `values[i]`.
pub struct VecDequeMap<K, V> {
    keys: VecDeque<K>,
    values: VecDeque<V>,
}

/// No key occurs twice.
pub open spec fn distinct_keys<K>(keys: Seq<K>) -> bool {
    forall|i: int, j: int| 0 <= i < j < keys.len() ==> keys[i] != keys[j]
}

impl<K: PartialEq, V> VecDequeMap<K, V> {
    /// The keys, oldest first.
    pub closed spec fn keys(&self) -> Seq<K> {
        self.keys@
    }

    /// The values, in the order of their keys.
    pub closed spec fn values(&self) -> Seq<V> {
        self.values@
    }

    /// The queues are of one length and no key occurs twice.
    pub open spec fn wf(&self) -> bool {
        &&& self.keys().len() == self.values().len()
        &&& distinct_keys(self.keys())
    }

    pub fn new() -> (m: Self)
        ensures
            m.wf(),
            m.keys() == Seq::<K>::empty(),
            m.values() == Seq::<V>::empty(),
    {
        VecDequeMap { keys: VecDeque::new(), values: VecDeque::new() }
    }

    /// The position of `k`, if it is a key.
    pub fn locate(&mut self, k: &K) -> (r: Option<usize>)
        requires
            obeys_concrete_eq::<K>(),
        ensures
            *final(self) == *old(self),
            match r {
                Some(i) => i < old(self).keys().len() && old(self).keys()[i as int] == *k,
                None => !old(self).keys().contains(*k),
            },
            r matches Some(i) ==> forall|j: int| 0 <= j < i ==> old(self).keys()[j] != *k,
    {
        let mut i: usize = 0;
        while i < self.keys.len()
            invariant
                i <= self.keys@.len(),
                obeys_concrete_eq::<K>(),
                forall|j: int| 0 <= j < i ==> self.keys@[j] != *k,
            decreases self.keys@.len() - i,
        {
            let this_k: &K = &self.keys[i];
            let same = K::eq(this_k, k);
            proof {
                reveal(obeys_concrete_eq);
                let x: K = *this_k;
                let y: K = *k;
                assert(x.eq_spec(&y) <==> (x == y));
            }
            if same {
                return Some(i);
            }
            i = i + 1;
        }
        None
    }

    /// Sets the value of `k`: in place when `k` is a key, giving back the
    /// value it replaces, else as the newest entry.
    pub fn insert(&mut self, k: K, v: V) -> (r: Option<V>)
        requires
            old(self).wf(),
            obeys_concrete_eq::<K>(),
        ensures
            final(self).wf(),
            match r {
                Some(o) => {
                    let i = old(self).keys().index_of(k);
                    &&& old(self).keys().contains(k)
                    &&& o == old(self).values()[i]
                    &&& final(self).keys() == old(self).keys()
                    &&& final(self).values() == old(self).values().update(i, v)
                },
                None => {
                    &&& !old(self).keys().contains(k)
                    &&& final(self).keys() == old(self).keys().push(k)
                    &&& final(self).values() == old(self).values().push(v)
                },
            },
    {
        match self.locate(&k) {
            Some(i) => {
                proof {
                    lemma_index_of_distinct(self.keys@, i as int);
                }
                let ghost old_values = self.values@;
                let old = self.values.remove(i);
                self.values.insert(i, v);
                assert(self.values@ =~= old_values.update(i as int, v));
                match old {
                    Some(o) => Some(o),
                    None => None,
                }
            },
            None => {
                self.insert_unique(k, v);
                None
            },
        }
    }

    /// Adds `k` as the newest key; it must not be a key already.
    pub fn insert_unique(&mut self, k: K, v: V)
        requires
            old(self).wf(),
            !old(self).keys().contains(k),
        ensures
            final(self).wf(),
            final(self).keys() == old(self).keys().push(k),
            final(self).values() == old(self).values().push(v),
    {
        self.keys.push_back(k);
        self.values.push_back(v);
        assert forall|i: int, j: int| 0 <= i < j < self.keys@.len() implies self.keys@[i]
            != self.keys@[j] by {
            if j == self.keys@.len() - 1 {
                assert(old(self).keys()[i] == self.keys@[i]);
            }
        }
    }

    /// Takes out the oldest entry.
    pub fn pop_front(&mut self) -> (r: Option<(K, V)>)
        requires
            old(self).wf(),
        ensures
            final(self).wf(),
            match r {
                Some(e) => {
                    &&& old(self).keys().len() > 0
                    &&& e == (old(self).keys()[0], old(self).values()[0])
                    &&& final(self).keys() == old(self).keys().drop_first()
                    &&& final(self).values() == old(self).values().drop_first()
                },
                None => {
                    &&& old(self).keys().len() == 0
                    &&& final(self).keys() == old(self).keys()
                    &&& final(self).values() == old(self).values()
                },
            },
    {
        let k = match self.keys.pop_front() {
            Some(k) => k,
            None => return None,
        };
        match self.values.pop_front() {
            Some(v) => {
                assert(self.keys@ =~= old(self).keys().drop_first());
                assert(self.values@ =~= old(self).values().drop_first());
                Some((k, v))
            },
            None => {
                assert(false);
                None
            },
        }
    }

    /// Takes out the entry of `k`, giving back its value.
    pub fn remove(&mut self, k: &K) -> (r: Option<V>)
        requires
            old(self).wf(),
            obeys_concrete_eq::<K>(),
        ensures
            final(self).wf(),
            match r {
                Some(v) => {
                    let i = old(self).keys().index_of(*k);
                    &&& old(self).keys().contains(*k)
                    &&& v == old(self).values()[i]
                    &&& final(self).keys() == old(self).keys().remove(i)
                    &&& final(self).values() == old(self).values().remove(i)
                },
                None => {
                    &&& !old(self).keys().contains(*k)
                    &&& final(self).keys() == old(self).keys()
                    &&& final(self).values() == old(self).values()
                },
            },
    {
        let index = match self.locate(k) {
            Some(i) => i,
            None => return None,
        };
        proof {
            lemma_index_of_distinct(self.keys@, index as int);
        }
        let ghost old_keys = self.keys@;
        self.keys.remove(index);
        assert forall|i: int, j: int| 0 <= i < j < self.keys@.len() implies self.keys@[i]
            != self.keys@[j] by {
            let oi = if i < index { i } else { i + 1 };
            let oj = if j < index { j } else { j + 1 };
            assert(self.keys@[i] == old_keys[oi]);
            assert(self.keys@[j] == old_keys[oj]);
        }
        match self.values.remove(index) {
            Some(v) => Some(v),
            None => {
                assert(false);
                None
            },
        }
    }
}

/// In a list without repeats, an element's position is where it is found.
proof fn lemma_index_of_distinct<K>(keys: Seq<K>, i: int)
    requires
        distinct_keys(keys),
        0 <= i < keys.len(),
    ensures
        keys.index_of(keys[i]) == i,
{
    assert(keys.contains(keys[i]));
}

/// Removing a key just inserted as new undoes the insertion: the keys and
/// the values are those from before.
pub proof fn lemma_remove_undoes_insert<K, V>(keys: Seq<K>, values: Seq<V>, k: K, v: V)
    requires
        distinct_keys(keys),
        !keys.contains(k),
    ensures
        keys.push(k).index_of(k) == keys.len(),
        keys.push(k).remove(keys.len() as int) == keys,
        values.push(v).remove(values.len() as int) == values,
{
    let s = keys.push(k);
    assert forall|i: int, j: int| 0 <= i < j < s.len() implies s[i] != s[j] by {
        if j == keys.len() {
            assert(keys.contains(s[i]) ==> s[i] != k);
            assert(s[i] == keys[i]);
        }
    }
    assert(s[keys.len() as int] == k);
    lemma_index_of_distinct(s, keys.len() as int);
    assert(s.remove(keys.len() as int) =~= keys);
    assert(values.push(v).remove(values.len() as int) =~= values);
}

/// The keys of the ordered-map benchmarks: arrays of `N` copies of a byte
/// that goes up by one, wrapping around, at each draw.
pub struct Key<const N: usize> {
    x: u8,
}

impl<const N: usize> Key<N> {
    /// The byte of the next key.
    pub closed spec fn counter(&self) -> u8 {
        self.x
    }

    pub fn new() -> (k: Self)
        ensures
            k.counter() == 0,
    {
        Key { x: 0 }
    }

    /// The next key: `N` copies of the counter, which then goes up by one,
    /// from 255 back to 0.
    pub fn next(&mut self) -> (r: Option<[u8; N]>)
        ensures
            r matches Some(k) && k@.len() == N && forall|i: int| 0 <= i < N ==> k@[i] == old(
                self,
            ).counter(),
            final(self).counter() == (if old(self).counter() == 255 {
                0
            } else {
                old(self).counter() + 1
            }),
    {
        let k = [self.x;N];
        self.x = self.x.wrapping_add(1);
        Some(k)
    }
}

} // verus!
