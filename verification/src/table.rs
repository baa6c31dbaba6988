//! A small table keyed by offer identifier: the store behind the active
//! and the pending transfers. It behaves as a map from key to value; each
//! key occurs at most once.
use crate::text::owned;
use vstd::prelude::*;

verus! {

/// Values keyed by text; a key occurs at most once.
pub struct OfferTable<V> {
    entries: Vec<(String, V)>,
}

impl<V> View for OfferTable<V> {
    type V = Map<Seq<char>, V>;

    closed spec fn view(&self) -> Map<Seq<char>, V> {
        Map::new(
            |k: Seq<char>| exists|i: int| 0 <= i < self.entries@.len() && self.entries@[i].0@ == k,
            |k: Seq<char>|
                self.entries@[choose|i: int|
                    0 <= i < self.entries@.len() && self.entries@[i].0@ == k].1,
        )
    }
}

impl<V> OfferTable<V> {
    /// No key occurs twice.
    pub closed spec fn wf(&self) -> bool {
        forall|i: int, j: int|
            0 <= i < self.entries@.len() && 0 <= j < self.entries@.len() && i != j
                ==> self.entries@[i].0@ != self.entries@[j].0@
    }

    proof fn lemma_entry(&self, i: int)
        requires
            self.wf(),
            0 <= i < self.entries@.len(),
        ensures
            self@.contains_key(self.entries@[i].0@),
            self@[self.entries@[i].0@] == self.entries@[i].1,
    {
        let k = self.entries@[i].0@;
        assert(self@.contains_key(k));
        let j = choose|j: int| 0 <= j < self.entries@.len() && self.entries@[j].0@ == k;
        assert(j == i);
    }

    /// An empty table.
    pub fn new() -> (r: Self)
        ensures
            r.wf(),
            r@ == Map::<Seq<char>, V>::empty(),
    {
        let r = OfferTable { entries: Vec::new() };
        assert(r@ =~= Map::<Seq<char>, V>::empty());
        r
    }

    /// The position of `key`, if present.
    fn position(&self, key: &str) -> (r: Option<usize>)
        requires
            self.wf(),
        ensures
            match r {
                Some(i) => i < self.entries@.len() && self.entries@[i as int].0@ == key@,
                None => !self@.contains_key(key@),
            },
    {
        let k = owned(key);
        let n = self.entries.len();
        for i in 0..n
            invariant
                n == self.entries@.len(),
                k@ == key@,
                forall|j: int| 0 <= j < i ==> self.entries@[j].0@ != key@,
        {
            if self.entries[i].0 == k {
                return Some(i);
            }
        }
        None
    }

    /// Whether `key` is present.
    pub fn contains_key(&self, key: &str) -> (r: bool)
        requires
            self.wf(),
        ensures
            r == self@.contains_key(key@),
    {
        match self.position(key) {
            Some(i) => {
                proof {
                    self.lemma_entry(i as int);
                }
                true
            },
            None => false,
        }
    }

    /// The value under `key`, if present.
    pub fn get(&self, key: &str) -> (r: Option<&V>)
        requires
            self.wf(),
        ensures
            match r {
                Some(v) => self@.contains_key(key@) && *v == self@[key@],
                None => !self@.contains_key(key@),
            },
    {
        match self.position(key) {
            Some(i) => {
                proof {
                    self.lemma_entry(i as int);
                }
                Some(&self.entries[i].1)
            },
            None => None,
        }
    }

    /// Puts `value` under `key`, replacing what was there.
    pub fn insert(&mut self, key: String, value: V)
        requires
            old(self).wf(),
        ensures
            final(self).wf(),
            final(self)@ == old(self)@.insert(key@, value),
    {
        let ghost k = key@;
        let ghost idx: int;
        match self.position(key.as_str()) {
            Some(i) => {
                self.entries.set(i, (key, value));
                proof {
                    idx = i as int;
                }
            },
            None => {
                self.entries.push((key, value));
                proof {
                    idx = old(self).entries@.len() as int;
                }
            },
        }
        proof {
            assert(self.entries@[idx].0@ == k);
            assert(forall|j: int|
                0 <= j < old(self).entries@.len() && j != idx ==> self.entries@[j]
                    == old(self).entries@[j]);
            assert(self.wf());
            assert forall|q: Seq<char>|
                #[trigger] self@.contains_key(q) == old(self)@.insert(k, value).contains_key(
                    q,
                ) by {
                if q == k {
                    assert(self.entries@[idx].0@ == k);
                } else {
                    if self@.contains_key(q) {
                        let j = choose|j: int|
                            0 <= j < self.entries@.len() && self.entries@[j].0@ == q;
                        assert(j != idx);
                        assert(old(self).entries@[j].0@ == q);
                    }
                    if old(self)@.contains_key(q) {
                        let j = choose|j: int|
                            0 <= j < old(self).entries@.len() && old(self).entries@[j].0@ == q;
                        assert(self.entries@[j].0@ == q);
                    }
                }
            }
            assert forall|q: Seq<char>| #[trigger] self@.contains_key(q) implies self@[q]
                == old(self)@.insert(k, value)[q] by {
                let j = choose|j: int| 0 <= j < self.entries@.len() && self.entries@[j].0@ == q;
                self.lemma_entry(j);
                if q != k {
                    old(self).lemma_entry(j);
                }
            }
            assert(self@ =~= old(self)@.insert(k, value));
        }
    }

    /// Takes the value under `key` out of the table.
    pub fn remove(&mut self, key: &str) -> (r: Option<V>)
        requires
            old(self).wf(),
        ensures
            final(self).wf(),
            final(self)@ == old(self)@.remove(key@),
            match r {
                Some(v) => old(self)@.contains_key(key@) && v == old(self)@[key@],
                None => !old(self)@.contains_key(key@),
            },
    {
        match self.position(key) {
            Some(i) => {
                proof {
                    self.lemma_entry(i as int);
                }
                let (_, v) = self.entries.remove(i);
                proof {
                    let k = key@;
                    assert(self.wf());
                    assert forall|q: Seq<char>| #[trigger] self@.contains_key(q)
                        == old(self)@.remove(k).contains_key(q) by {
                        if self@.contains_key(q) {
                            let j = choose|j: int|
                                0 <= j < self.entries@.len() && self.entries@[j].0@ == q;
                            if j < i {
                                assert(old(self).entries@[j].0@ == q);
                            } else {
                                assert(old(self).entries@[j + 1].0@ == q);
                            }
                        }
                        if old(self)@.contains_key(q) && q != k {
                            let j = choose|j: int|
                                0 <= j < old(self).entries@.len() && old(self).entries@[j].0@
                                    == q;
                            if j < i {
                                assert(self.entries@[j].0@ == q);
                            } else {
                                assert(self.entries@[j - 1].0@ == q);
                            }
                        }
                    }
                    assert forall|q: Seq<char>| #[trigger] self@.contains_key(q) implies self@[q]
                        == old(self)@.remove(k)[q] by {
                        let j = choose|j: int|
                            0 <= j < self.entries@.len() && self.entries@[j].0@ == q;
                        self.lemma_entry(j);
                        if j < i {
                            old(self).lemma_entry(j);
                        } else {
                            old(self).lemma_entry(j + 1);
                        }
                    }
                    assert(self@ =~= old(self)@.remove(k));
                }
                Some(v)
            },
            None => {
                proof {
                    assert(self@ =~= old(self)@.remove(key@));
                }
                None
            },
        }
    }

    /// Removes every entry.
    pub fn clear(&mut self)
        ensures
            final(self).wf(),
            final(self)@ == Map::<Seq<char>, V>::empty(),
    {
        self.entries.clear();
        assert(self@ =~= Map::<Seq<char>, V>::empty());
    }
}

} // verus!
