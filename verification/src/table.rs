//! A keyed collection that keeps its entries in insertion order.

use crate::text::str_eq;
use vstd::prelude::*;

verus! {

/// Whether some entry of `s` has the key `k`.
pub open spec fn assoc_has<T>(s: Seq<(Seq<char>, T)>, k: Seq<char>) -> bool {
    exists|i: int| 0 <= i < s.len() && (#[trigger] s[i]).0 == k
}

/// The position of an entry with the key `k`, where there is one.
pub open spec fn assoc_slot<T>(s: Seq<(Seq<char>, T)>, k: Seq<char>) -> int {
    choose|i: int| 0 <= i < s.len() && (#[trigger] s[i]).0 == k
}

/// No key occurs in two entries.
pub open spec fn assoc_distinct<T>(s: Seq<(Seq<char>, T)>) -> bool {
    forall|i: int, j: int| 0 <= i < j < s.len() ==> (#[trigger] s[i]).0 != (#[trigger] s[j]).0
}

/// The mapping from keys to values that the entries stand for.
pub open spec fn assoc_map<T>(s: Seq<(Seq<char>, T)>) -> Map<Seq<char>, T> {
    Map::new(|k: Seq<char>| assoc_has(s, k), |k: Seq<char>| s[assoc_slot(s, k)].1)
}

/// The entries after `v` is put under `k`: in the place of the value that was
/// there, or else as a new last entry.
pub open spec fn assoc_put<T>(s: Seq<(Seq<char>, T)>, k: Seq<char>, v: T) -> Seq<(Seq<char>, T)> {
    if assoc_has(s, k) {
        s.update(assoc_slot(s, k), (k, v))
    } else {
        s.push((k, v))
    }
}

/// Putting a value under a key keeps the keys distinct and inserts into the
/// mapping.
pub proof fn lemma_assoc_put<T>(s: Seq<(Seq<char>, T)>, k: Seq<char>, v: T)
    requires
        assoc_distinct(s),
    ensures
        assoc_distinct(assoc_put(s, k, v)),
        assoc_map(assoc_put(s, k, v)) == assoc_map(s).insert(k, v),
{
    if assoc_has(s, k) {
        let i = assoc_slot(s, k);
        lemma_assoc_update(s, i, v);
    } else {
        lemma_assoc_push(s, k, v);
    }
}

/// With distinct keys, the entry at `i` is the one its key maps to.
pub proof fn lemma_assoc_at<T>(s: Seq<(Seq<char>, T)>, i: int)
    requires
        assoc_distinct(s),
        0 <= i < s.len(),
    ensures
        assoc_has(s, s[i].0),
        assoc_slot(s, s[i].0) == i,
        assoc_map(s).contains_key(s[i].0),
        assoc_map(s)[s[i].0] == s[i].1,
{
}

/// Appending an entry under a new key inserts it into the mapping.
pub proof fn lemma_assoc_push<T>(s: Seq<(Seq<char>, T)>, k: Seq<char>, v: T)
    requires
        assoc_distinct(s),
        !assoc_has(s, k),
    ensures
        assoc_distinct(s.push((k, v))),
        assoc_map(s.push((k, v))) == assoc_map(s).insert(k, v),
{
    let t = s.push((k, v));
    assert forall|q: Seq<char>| assoc_has(t, q) <==> (q == k || assoc_has(s, q)) by {
        if assoc_has(s, q) {
            let i = assoc_slot(s, q);
            assert(t[i].0 == q);
        }
        if q == k {
            assert(t[s.len() as int].0 == q);
        }
    }
    assert forall|q: Seq<char>| assoc_has(t, q) implies #[trigger] assoc_map(t)[q] == assoc_map(
        s,
    ).insert(k, v)[q] by {
        let i = assoc_slot(t, q);
        lemma_assoc_at(t, i);
        if i < s.len() {
            lemma_assoc_at(s, i);
        }
    }
}

/// Replacing the value of the entry at `i` replaces what its key maps to.
pub proof fn lemma_assoc_update<T>(s: Seq<(Seq<char>, T)>, i: int, v: T)
    requires
        assoc_distinct(s),
        0 <= i < s.len(),
    ensures
        assoc_distinct(s.update(i, (s[i].0, v))),
        assoc_map(s.update(i, (s[i].0, v))) == assoc_map(s).insert(s[i].0, v),
{
    let k = s[i].0;
    let t = s.update(i, (k, v));
    assert forall|q: Seq<char>| assoc_has(t, q) <==> assoc_has(s, q) by {
        if assoc_has(s, q) {
            let j = assoc_slot(s, q);
            assert(t[j].0 == q);
        }
    }
    lemma_assoc_at(s, i);
    assert forall|q: Seq<char>| assoc_has(t, q) implies #[trigger] assoc_map(t)[q] == assoc_map(
        s,
    ).insert(k, v)[q] by {
        let j = assoc_slot(t, q);
        lemma_assoc_at(t, j);
        lemma_assoc_at(s, j);
    }
}

/// Taking out the entry at `i` removes its key from the mapping.
pub proof fn lemma_assoc_remove<T>(s: Seq<(Seq<char>, T)>, i: int)
    requires
        assoc_distinct(s),
        0 <= i < s.len(),
    ensures
        assoc_distinct(s.remove(i)),
        assoc_map(s.remove(i)) == assoc_map(s).remove(s[i].0),
{
    let k = s[i].0;
    let t = s.remove(i);
    assert forall|a: int| 0 <= a < t.len() implies #[trigger] t[a] == s[if a < i {
        a
    } else {
        a + 1
    }] by {}
    assert forall|q: Seq<char>| assoc_has(t, q) <==> (q != k && assoc_has(s, q)) by {
        if q != k && assoc_has(s, q) {
            let j = assoc_slot(s, q);
            let j2 = if j < i { j } else { j - 1 };
            assert(t[j2] == s[j]);
        }
    }
    assert forall|q: Seq<char>| assoc_has(t, q) implies #[trigger] assoc_map(t)[q] == assoc_map(
        s,
    ).remove(k)[q] by {
        let j = assoc_slot(t, q);
        let j2 = if j < i { j } else { j + 1 };
        lemma_assoc_at(t, j);
        lemma_assoc_at(s, j2);
    }
}

/// A collection of values under string keys. The entries stand in the order in
/// which their keys were first inserted.
#[derive(Debug)]
pub struct Table<V> {
    pub entries: Vec<(String, V)>,
}

impl<V: View> View for Table<V> {
    type V = Map<Seq<char>, V::V>;

    open spec fn view(&self) -> Map<Seq<char>, V::V> {
        assoc_map(self.model())
    }
}

impl<V: View> Table<V> {
    /// The entries in order, each key and value by its view.
    pub open spec fn model(&self) -> Seq<(Seq<char>, V::V)> {
        Seq::new(self.entries@.len(), |i: int| (self.entries@[i].0@, self.entries@[i].1@))
    }

    /// No key occurs twice.
    pub open spec fn wf(&self) -> bool {
        assoc_distinct(self.model())
    }

    /// An empty table.
    pub fn new() -> (r: Self)
        ensures
            r.wf(),
            r.model() == Seq::<(Seq<char>, V::V)>::empty(),
            r@ == Map::<Seq<char>, V::V>::empty(),
    {
        let r = Table { entries: Vec::new() };
        r
    }

    /// The number of entries.
    pub fn len(&self) -> (r: usize)
        ensures
            r == self.model().len(),
    {
        self.entries.len()
    }

    /// The position of the first entry under `key`.
    pub fn find(&self, key: &str) -> (r: Option<usize>)
        ensures
            match r {
                Some(i) => i < self.model().len() && self.model()[i as int].0 == key@ && (
                self.wf() ==> assoc_slot(self.model(), key@) == i),
                None => !assoc_has(self.model(), key@),
            },
            r.is_some() == self@.contains_key(key@),
    {
        let mut i: usize = 0;
        while i < self.entries.len()
            invariant
                i <= self.entries.len(),
                forall|j: int| 0 <= j < i ==> (#[trigger] self.model()[j]).0 != key@,
            decreases self.entries.len() - i,
        {
            if str_eq(self.entries[i].0.as_str(), key) {
                proof {
                    assert(self.model()[i as int].0 == key@);
                    if self.wf() {
                        lemma_assoc_at(self.model(), i as int);
                    }
                }
                return Some(i);
            }
            i += 1;
        }
        None
    }

    /// Whether `key` has an entry.
    pub fn contains_key(&self, key: &str) -> (r: bool)
        ensures
            r == self@.contains_key(key@),
    {
        self.find(key).is_some()
    }

    /// The value under `key`.
    pub fn get(&self, key: &str) -> (r: Option<&V>)
        requires
            self.wf(),
        ensures
            match r {
                Some(v) => self@.contains_key(key@) && v@ == self@[key@],
                None => !self@.contains_key(key@),
            },
    {
        match self.find(key) {
            Some(i) => {
                proof {
                    lemma_assoc_at(self.model(), i as int);
                }
                Some(&self.entries[i].1)
            },
            None => None,
        }
    }

    /// Puts `value` under `key`: in the place of the value that was there, or
    /// else as a new last entry.
    pub fn insert(&mut self, key: String, value: V)
        requires
            old(self).wf(),
        ensures
            final(self).wf(),
            final(self)@ == old(self)@.insert(key@, value@),
            final(self).model() == assoc_put(old(self).model(), key@, value@),
    {
        let ghost before = self.model();
        match self.find(key.as_str()) {
            Some(i) => {
                proof {
                    lemma_assoc_update(before, i as int, value@);
                }
                self.entries.set(i, (key, value));
                assert(self.model() =~= before.update(i as int, (key@, value@)));
            },
            None => {
                proof {
                    lemma_assoc_push(before, key@, value@);
                }
                self.entries.push((key, value));
                assert(self.model() =~= before.push((key@, value@)));
            },
        }
    }

    /// Takes the entry under `key` out and hands its value back.
    pub fn remove(&mut self, key: &str) -> (r: Option<V>)
        requires
            old(self).wf(),
        ensures
            final(self).wf(),
            final(self)@ == old(self)@.remove(key@),
            match r {
                Some(v) => old(self)@.contains_key(key@) && v@ == old(self)@[key@]
                    && final(self).model() == old(self).model().remove(
                    assoc_slot(old(self).model(), key@),
                ),
                None => !old(self)@.contains_key(key@) && final(self).model() == old(self).model(),
            },
    {
        let ghost before = self.model();
        match self.find(key) {
            Some(i) => {
                proof {
                    lemma_assoc_at(before, i as int);
                    lemma_assoc_remove(before, i as int);
                }
                let entry = self.entries.remove(i);
                assert(self.model() =~= before.remove(i as int));
                Some(entry.1)
            },
            None => None,
        }
    }
}

} // verus!
