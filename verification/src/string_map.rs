//! A map with text keys.
use vstd::prelude::*;
use vstd::string::*;

verus! {

/// A map from text to values. It holds at most one value under a key.
pub struct StringMap<V> {
    entries: Vec<(String, V)>,
}

impl<V> StringMap<V> {
    closed spec fn position(self, key: Seq<char>) -> int {
        choose|i: int| 0 <= i < self.entries@.len() && (#[trigger] self.entries@[i]).0@ == key
    }

    /// What the map holds.
    pub closed spec fn view(&self) -> Map<Seq<char>, V> {
        Map::new(
            |key: Seq<char>|
                exists|i: int|
                    0 <= i < self.entries@.len() && (#[trigger] self.entries@[i]).0@ == key,
            |key: Seq<char>| self.entries@[self.position(key)].1,
        )
    }

    /// No key occurs twice.
    pub closed spec fn wf(&self) -> bool {
        forall|i: int, j: int|
            0 <= i < j < self.entries@.len() ==> (#[trigger] self.entries@[i]).0@ != (
            #[trigger] self.entries@[j]).0@
    }

    proof fn lemma_entry(&self, i: int)
        requires
            self.wf(),
            0 <= i < self.entries@.len(),
        ensures
            self@.contains_key(self.entries@[i].0@),
            self@[self.entries@[i].0@] == self.entries@[i].1,
    {
        let key = self.entries@[i].0@;
        let p = self.position(key);
        assert(0 <= p < self.entries@.len() && self.entries@[p].0@ == key);
        assert(p == i);
    }

    pub fn new() -> (map: Self)
        ensures
            map.wf(),
            map@ == Map::<Seq<char>, V>::empty(),
    {
        let map = StringMap { entries: Vec::new() };
        assert(map@ =~= Map::<Seq<char>, V>::empty());
        map
    }

    fn find(&self, key: &String) -> (r: Option<usize>)
        requires
            self.wf(),
        ensures
            match r {
                Some(i) => i < self.entries@.len() && self.entries@[i as int].0@ == key@
                    && self@.contains_key(key@) && self@[key@] == self.entries@[i as int].1,
                None => !self@.contains_key(key@) && forall|i: int|
                    0 <= i < self.entries@.len() ==> (#[trigger] self.entries@[i]).0@ != key@,
            },
    {
        let mut i: usize = 0;
        while i < self.entries.len()
            invariant
                i <= self.entries@.len(),
                self.wf(),
                forall|k: int| 0 <= k < i ==> (#[trigger] self.entries@[k]).0@ != key@,
            decreases self.entries@.len() - i,
        {
            if self.entries[i].0 == *key {
                proof {
                    self.lemma_entry(i as int);
                }
                return Some(i);
            }
            i = i + 1;
        }
        None
    }

    /// The value under a key.
    pub fn get(&self, key: &String) -> (r: Option<&V>)
        requires
            self.wf(),
        ensures
            match r {
                Some(value) => self@.contains_key(key@) && self@[key@] == *value,
                None => !self@.contains_key(key@),
            },
    {
        match self.find(key) {
            Some(i) => Some(&self.entries[i].1),
            None => None,
        }
    }

    /// Takes the value under a key out of the map.
    pub fn remove(&mut self, key: &String) -> (r: Option<V>)
        requires
            old(self).wf(),
        ensures
            final(self).wf(),
            final(self)@ == old(self)@.remove(key@),
            match r {
                Some(value) => old(self)@.contains_key(key@) && old(self)@[key@] == value,
                None => !old(self)@.contains_key(key@),
            },
    {
        match self.find(key) {
            Some(i) => {
                let (_, value) = self.entries.remove(i);
                proof {
                    let before = old(self).entries@;
                    let after = self.entries@;
                    assert forall|k: int| 0 <= k < after.len() implies #[trigger] after[k]
                        == before[if k < i {
                        k
                    } else {
                        k + 1
                    }] by {}
                    assert forall|other: Seq<char>|
                        self@.contains_key(other) == old(self)@.remove(key@).contains_key(
                            other,
                        ) by {
                        if self@.contains_key(other) {
                            let k = choose|k: int|
                                0 <= k < after.len() && (#[trigger] after[k]).0@ == other;
                            let j = if k < i {
                                k
                            } else {
                                k + 1
                            };
                            assert(before[j].0@ == other);
                            assert(before[i as int].0@ == key@);
                        }
                        if old(self)@.remove(key@).contains_key(other) {
                            let j = choose|j: int|
                                0 <= j < before.len() && (#[trigger] before[j]).0@ == other;
                            let k = if j < i {
                                j
                            } else {
                                j - 1
                            };
                            assert(after[k] == before[j]);
                        }
                    }
                    assert forall|other: Seq<char>|
                        #[trigger] self@.contains_key(other) implies self@[other]
                        == old(self)@[other] by {
                        let k = choose|k: int|
                            0 <= k < after.len() && (#[trigger] after[k]).0@ == other;
                        let j = if k < i {
                            k
                        } else {
                            k + 1
                        };
                        self.lemma_entry(k);
                        old(self).lemma_entry(j);
                    }
                    assert(self@ =~= old(self)@.remove(key@));
                }
                Some(value)
            },
            None => {
                assert(self@ =~= old(self)@.remove(key@));
                None
            },
        }
    }

    /// Puts a value under a key, and gives back the value that it takes the place of.
    pub fn insert(&mut self, key: String, value: V) -> (r: Option<V>)
        requires
            old(self).wf(),
        ensures
            final(self).wf(),
            final(self)@ == old(self)@.insert(key@, value),
            match r {
                Some(displaced) => old(self)@.contains_key(key@) && old(self)@[key@] == displaced,
                None => !old(self)@.contains_key(key@),
            },
    {
        let displaced = self.remove(&key);
        let ghost removed = *self;
        self.entries.push((key, value));
        proof {
            let before = removed.entries@;
            let after = self.entries@;
            assert forall|k: int| 0 <= k < before.len() implies (#[trigger] before[k]).0@ != key@ by {
                removed.lemma_entry(k);
            }
            assert(self.wf());
            self.lemma_entry(before.len() as int);
            assert forall|other: Seq<char>|
                self@.contains_key(other) == old(self)@.insert(key@, value).contains_key(other) by {
                if self@.contains_key(other) && other != key@ {
                    let k = choose|k: int|
                        0 <= k < after.len() && (#[trigger] after[k]).0@ == other;
                    assert(before[k].0@ == other);
                    removed.lemma_entry(k);
                }
                if old(self)@.contains_key(other) && other != key@ {
                    assert(removed@.contains_key(other));
                    let k = choose|k: int|
                        0 <= k < before.len() && (#[trigger] before[k]).0@ == other;
                    assert(after[k].0@ == other);
                }
            }
            assert forall|other: Seq<char>|
                #[trigger] self@.contains_key(other) && other != key@ implies self@[other]
                == old(self)@[other] by {
                let k = choose|k: int| 0 <= k < after.len() && (#[trigger] after[k]).0@ == other;
                assert(after[k] == before[k]);
                self.lemma_entry(k);
                removed.lemma_entry(k);
            }
            assert(self@ =~= old(self)@.insert(key@, value));
        }
        displaced
    }
}

} // verus!
