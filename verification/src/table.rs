//! A small association table with a map view, used for the replicas' key
//! spaces and for the deployment planner's name-keyed settings.

use vstd::prelude::*;

verus! {

/// Keys whose equality is decided by their view.
pub trait TableKey: View + Sized {
    fn key_eq(&self, other: &Self) -> (r: bool)
        ensures
            r == (self@ == other@),
    ;

    fn key_clone(&self) -> (r: Self)
        ensures
            r@ == self@,
    ;
}

impl TableKey for String {
    fn key_eq(&self, other: &Self) -> (r: bool) {
        *self == *other
    }

    fn key_clone(&self) -> (r: Self) {
        self.clone()
    }
}

/// The map built from a list of pairs, later pairs overriding earlier ones.
pub open spec fn map_of<A, B>(s: Seq<(A, B)>) -> Map<A, B>
    decreases s.len(),
{
    if s.len() == 0 {
        Map::empty()
    } else {
        map_of(s.drop_last()).insert(s.last().0, s.last().1)
    }
}

pub open spec fn keys_distinct<A, B>(s: Seq<(A, B)>) -> bool {
    forall|i: int, j: int| 0 <= i < j < s.len() ==> s[i].0 != s[j].0
}

pub proof fn lemma_map_of_contains<A, B>(s: Seq<(A, B)>, a: A)
    ensures
        map_of(s).contains_key(a) <==> exists|i: int| 0 <= i < s.len() && s[i].0 == a,
    decreases s.len(),
{
    if s.len() > 0 {
        lemma_map_of_contains(s.drop_last(), a);
        if map_of(s.drop_last()).contains_key(a) {
            let i = choose|i: int| 0 <= i < s.drop_last().len() && s.drop_last()[i].0 == a;
            assert(s[i].0 == a);
        }
        if exists|i: int| 0 <= i < s.len() && s[i].0 == a {
            let i = choose|i: int| 0 <= i < s.len() && s[i].0 == a;
            if i < s.len() - 1 {
                assert(s.drop_last()[i].0 == a);
            }
        }
    }
}

pub proof fn lemma_map_of_value<A, B>(s: Seq<(A, B)>, i: int)
    requires
        keys_distinct(s),
        0 <= i < s.len(),
    ensures
        map_of(s).contains_key(s[i].0),
        map_of(s)[s[i].0] == s[i].1,
    decreases s.len(),
{
    if i < s.len() - 1 {
        assert(keys_distinct(s.drop_last()));
        lemma_map_of_value(s.drop_last(), i);
        assert(s.drop_last()[i] == s[i]);
        assert(s.last().0 != s[i].0);
    }
}

/// Removing the pair at `i` removes its key from the map.
pub proof fn lemma_map_of_remove<A, B>(s: Seq<(A, B)>, i: int)
    requires
        keys_distinct(s),
        0 <= i < s.len(),
    ensures
        keys_distinct(s.remove(i)),
        map_of(s.remove(i)) == map_of(s).remove(s[i].0),
{
    let r = s.remove(i);
    assert forall|x: int, y: int| 0 <= x < y < r.len() implies r[x].0 != r[y].0 by {
        let xs = if x < i { x } else { x + 1 };
        let ys = if y < i { y } else { y + 1 };
        assert(r[x] == s[xs] && r[y] == s[ys]);
    }
    let m1 = map_of(r);
    let m2 = map_of(s).remove(s[i].0);
    assert forall|a: A| m1.contains_key(a) <==> m2.contains_key(a) by {
        lemma_map_of_contains(r, a);
        lemma_map_of_contains(s, a);
        if exists|j: int| 0 <= j < r.len() && r[j].0 == a {
            let j = choose|j: int| 0 <= j < r.len() && r[j].0 == a;
            let js = if j < i { j } else { j + 1 };
            assert(r[j] == s[js]);
        }
        if m2.contains_key(a) {
            let j = choose|j: int| 0 <= j < s.len() && s[j].0 == a;
            assert(j != i);
            let jr = if j < i { j } else { j - 1 };
            assert(r[jr] == s[j]);
        }
    }
    assert forall|a: A| m1.contains_key(a) implies m1[a] == m2[a] by {
        lemma_map_of_contains(r, a);
        let j = choose|j: int| 0 <= j < r.len() && r[j].0 == a;
        let js = if j < i { j } else { j + 1 };
        assert(r[j] == s[js]);
        lemma_map_of_value(r, j);
        lemma_map_of_value(s, js);
    }
    assert(m1 =~= m2);
}

/// Pushing a pair with a fresh key keeps keys distinct.
pub proof fn lemma_push_fresh<A, B>(s: Seq<(A, B)>, p: (A, B))
    requires
        keys_distinct(s),
        !map_of(s).contains_key(p.0),
    ensures
        keys_distinct(s.push(p)),
        map_of(s.push(p)) == map_of(s).insert(p.0, p.1),
{
    lemma_map_of_contains(s, p.0);
    let t = s.push(p);
    assert(t.drop_last() =~= s);
    assert forall|x: int, y: int| 0 <= x < y < t.len() implies t[x].0 != t[y].0 by {
        if y == s.len() {
            assert(t[x] == s[x]);
        }
    }
}

/// An association table: each key appears at most once, and the table is
/// viewed as a map from key views to values.
pub struct Table<K, V> {
    entries: Vec<(K, V)>,
}

impl<K: TableKey, V> Table<K, V> {
    /// The entries, keys taken by their view.
    pub closed spec fn pairs(&self) -> Seq<(K::V, V)> {
        self.entries@.map_values(|e: (K, V)| (e.0@, e.1))
    }

    pub closed spec fn view(&self) -> Map<K::V, V> {
        map_of(self.pairs())
    }

    pub closed spec fn wf(&self) -> bool {
        keys_distinct(self.pairs())
    }

    /// A well-formed table holds each key once.
    pub proof fn lemma_keys_distinct(&self)
        requires
            self.wf(),
        ensures
            keys_distinct(self.pairs()),
            self.view() == map_of(self.pairs()),
    {
    }

    pub fn new() -> (t: Self)
        ensures
            t.wf(),
            t.view() == Map::<K::V, V>::empty(),
    {
        let t = Table { entries: Vec::new() };
        assert(t.pairs() =~= Seq::<(K::V, V)>::empty());
        t
    }

    pub fn len(&self) -> (n: usize)
        requires
            self.wf(),
        ensures
            n == self.view().dom().len(),
    {
        proof {
            self.lemma_dom_len();
        }
        self.entries.len()
    }

    proof fn lemma_dom_len(&self)
        requires
            self.wf(),
        ensures
            self.view().dom().len() == self.entries@.len(),
            self.view().dom().finite(),
    {
        lemma_dom_len_of(self.pairs());
    }

    fn index_of(&self, k: &K) -> (r: Option<usize>)
        requires
            self.wf(),
        ensures
            match r {
                Some(i) => i < self.entries@.len() && self.pairs()[i as int].0 == k@,
                None => !self.view().contains_key(k@),
            },
    {
        let mut i: usize = 0;
        while i < self.entries.len()
            invariant
                i <= self.entries@.len(),
                forall|j: int| 0 <= j < i ==> self.pairs()[j].0 != k@,
            decreases self.entries@.len() - i,
        {
            if self.entries[i].0.key_eq(k) {
                return Some(i);
            }
            i = i + 1;
        }
        proof {
            lemma_map_of_contains(self.pairs(), k@);
        }
        None
    }

    pub fn contains_key(&self, k: &K) -> (r: bool)
        requires
            self.wf(),
        ensures
            r == self.view().contains_key(k@),
    {
        match self.index_of(k) {
            Some(i) => {
                proof {
                    lemma_map_of_value(self.pairs(), i as int);
                }
                true
            },
            None => false,
        }
    }

    pub fn get(&self, k: &K) -> (r: Option<&V>)
        requires
            self.wf(),
        ensures
            match r {
                Some(v) => self.view().contains_key(k@) && *v == self.view()[k@],
                None => !self.view().contains_key(k@),
            },
    {
        match self.index_of(k) {
            Some(i) => {
                proof {
                    lemma_map_of_value(self.pairs(), i as int);
                }
                Some(&self.entries[i].1)
            },
            None => None,
        }
    }

    /// Removes the entry of `k`, giving back its value.
    pub fn remove(&mut self, k: &K) -> (r: Option<V>)
        requires
            old(self).wf(),
        ensures
            final(self).wf(),
            final(self).view() == old(self).view().remove(k@),
            match r {
                Some(v) => old(self).view().contains_key(k@) && v == old(self).view()[k@],
                None => !old(self).view().contains_key(k@),
            },
    {
        match self.index_of(k) {
            Some(i) => {
                let ghost s = self.pairs();
                proof {
                    lemma_map_of_value(s, i as int);
                    lemma_map_of_remove(s, i as int);
                }
                let e = self.entries.remove(i);
                assert(self.pairs() =~= s.remove(i as int));
                Some(e.1)
            },
            None => {
                assert(old(self).view().remove(k@) =~= old(self).view());
                None
            },
        }
    }

    /// Sets the value of `k`, giving back the value it replaced.
    pub fn insert(&mut self, k: K, v: V) -> (r: Option<V>)
        requires
            old(self).wf(),
        ensures
            final(self).wf(),
            final(self).view() == old(self).view().insert(k@, v),
            match r {
                Some(old_v) => old(self).view().contains_key(k@) && old_v == old(self).view()[k@],
                None => !old(self).view().contains_key(k@),
            },
    {
        let ghost kv = k@;
        let prev = self.remove(&k);
        let ghost s = self.pairs();
        proof {
            lemma_push_fresh(s, (kv, v));
        }
        self.entries.push((k, v));
        assert(self.pairs() =~= s.push((kv, v)));
        assert(final(self).view() =~= old(self).view().insert(kv, v));
        prev
    }

    /// The entries in table order.
    pub fn entries(&self) -> (r: &Vec<(K, V)>)
        ensures
            r@.map_values(|e: (K, V)| (e.0@, e.1)) == self.pairs(),
    {
        &self.entries
    }

    pub closed spec fn spec_entries(&self) -> Seq<(K, V)> {
        self.entries@
    }
}

/// A list with distinct keys has as many map keys as elements.
pub proof fn lemma_dom_len_of<A, B>(s: Seq<(A, B)>)
    requires
        keys_distinct(s),
    ensures
        map_of(s).dom().finite(),
        map_of(s).dom().len() == s.len(),
    decreases s.len(),
{
    if s.len() > 0 {
        let d = s.drop_last();
        assert(keys_distinct(d));
        lemma_dom_len_of(d);
        lemma_map_of_contains(d, s.last().0);
        if map_of(d).contains_key(s.last().0) {
            let j = choose|j: int| 0 <= j < d.len() && d[j].0 == s.last().0;
            assert(s[j] == d[j]);
        }
    }
}

} // verus!
