use vstd::prelude::*;
use crate::bytes::bytes_equal;

verus! {

/// A small map from byte strings to byte strings, each key once.
pub struct ByteMap {
    entries: Vec<(Vec<u8>, Vec<u8>)>,
    model: Ghost<Map<Seq<u8>, Seq<u8>>>,
}

impl ByteMap {
    pub closed spec fn view(&self) -> Map<Seq<u8>, Seq<u8>> {
        self.model@
    }

    pub closed spec fn wf(&self) -> bool {
        let e = self.entries@;
        &&& forall|i: int, j: int|
            0 <= i < j < e.len() ==> (#[trigger] e[i]).0@ != (#[trigger] e[j]).0@
        &&& forall|i: int|
            0 <= i < e.len() ==> self.model@.contains_key((#[trigger] e[i]).0@) && self.model@[e[i].0@]
                == e[i].1@
        &&& forall|k: Seq<u8>|
            #[trigger] self.model@.contains_key(k) ==> exists|i: int|
                0 <= i < e.len() && (#[trigger] e[i]).0@ == k
    }

    pub fn new() -> (r: ByteMap)
        ensures
            r.wf(),
            r.view() == Map::<Seq<u8>, Seq<u8>>::empty(),
    {
        ByteMap { entries: Vec::new(), model: Ghost(Map::empty()) }
    }

    pub fn len(&self) -> (r: usize)
        requires
            self.wf(),
        ensures
            r == self.view().dom().len(),
    {
        proof {
            self.lemma_len();
        }
        self.entries.len()
    }

    proof fn lemma_len(&self)
        requires
            self.wf(),
        ensures
            self.entries@.len() == self.view().dom().len(),
    {
        let e = self.entries@;
        let keys = e.map_values(|p: (Vec<u8>, Vec<u8>)| p.0@);
        assert(keys.no_duplicates()) by {
            assert forall|i: int, j: int| 0 <= i < keys.len() && 0 <= j < keys.len() && i != j implies keys[i]
                != keys[j] by {
                if i < j {
                    assert(e[i].0@ != e[j].0@);
                } else {
                    assert(e[j].0@ != e[i].0@);
                }
            }
        }
        assert(keys.to_set() =~= self.view().dom()) by {
            assert forall|k: Seq<u8>| self.view().dom().contains(k) implies keys.to_set().contains(k) by {
                let i = choose|i: int| 0 <= i < e.len() && (#[trigger] e[i]).0@ == k;
                assert(keys[i] == k);
            }
            assert forall|k: Seq<u8>| keys.to_set().contains(k) implies self.view().dom().contains(k) by {
                let i = choose|i: int| 0 <= i < keys.len() && keys[i] == k;
                assert(e[i].0@ == k);
            }
        }
        keys.unique_seq_to_set();
    }

    fn find(&self, key: &[u8]) -> (r: Option<usize>)
        requires
            self.wf(),
        ensures
            match r {
                Some(i) => i < self.entries@.len() && self.entries@[i as int].0@ == key@
                    && self.view().contains_key(key@),
                None => !self.view().contains_key(key@),
            },
    {
        let mut i: usize = 0;
        while i < self.entries.len()
            invariant
                self.wf(),
                0 <= i <= self.entries@.len(),
                forall|j: int| 0 <= j < i ==> (#[trigger] self.entries@[j]).0@ != key@,
            decreases self.entries@.len() - i,
        {
            if bytes_equal(self.entries[i].0.as_slice(), key) {
                return Some(i);
            }
            i = i + 1;
        }
        None
    }

    pub fn contains(&self, key: &[u8]) -> (r: bool)
        requires
            self.wf(),
        ensures
            r == self.view().contains_key(key@),
    {
        self.find(key).is_some()
    }

    /// Sets `key` to `value`; returns whether `key` was absent.
    pub fn insert(&mut self, key: Vec<u8>, value: Vec<u8>) -> (r: bool)
        requires
            old(self).wf(),
        ensures
            final(self).wf(),
            final(self).view() == old(self).view().insert(key@, value@),
            r == !old(self).view().contains_key(key@),
    {
        let ghost k = key@;
        let ghost v = value@;
        let ghost old_e = self.entries@;
        match self.find(key.as_slice()) {
            Some(i) => {
                self.entries.set(i, (key, value));
                self.model = Ghost(self.model@.insert(k, v));
                assert forall|q: Seq<u8>| #[trigger] self.model@.contains_key(q) implies exists|j: int|
                    0 <= j < self.entries@.len() && (#[trigger] self.entries@[j]).0@ == q by {
                    let j = choose|j: int| 0 <= j < old_e.len() && (#[trigger] old_e[j]).0@ == q;
                    assert(self.entries@[j].0@ == q);
                }
                false
            },
            None => {
                self.entries.push((key, value));
                self.model = Ghost(self.model@.insert(k, v));
                assert forall|q: Seq<u8>| #[trigger] self.model@.contains_key(q) implies exists|j: int|
                    0 <= j < self.entries@.len() && (#[trigger] self.entries@[j]).0@ == q by {
                    if q == k {
                        assert(self.entries@[old_e.len() as int].0@ == q);
                    } else {
                        let j = choose|j: int| 0 <= j < old_e.len() && (#[trigger] old_e[j]).0@ == q;
                        assert(self.entries@[j].0@ == q);
                    }
                }
                true
            },
        }
    }

    /// Removes `key`; returns whether it was there.
    pub fn remove(&mut self, key: &[u8]) -> (r: bool)
        requires
            old(self).wf(),
        ensures
            final(self).wf(),
            final(self).view() == old(self).view().remove(key@),
            r == old(self).view().contains_key(key@),
    {
        match self.find(key) {
            None => {
                assert(self.model@.remove(key@) =~= self.model@);
                false
            },
            Some(i) => {
                let ghost old_e = self.entries@;
                let ghost k = key@;
                let _ = self.entries.remove(i);
                self.model = Ghost(self.model@.remove(k));
                assert forall|q: Seq<u8>| #[trigger] self.model@.contains_key(q) implies exists|j: int|
                    0 <= j < self.entries@.len() && (#[trigger] self.entries@[j]).0@ == q by {
                    let j = choose|j: int| 0 <= j < old_e.len() && (#[trigger] old_e[j]).0@ == q;
                    if j < i {
                        assert(self.entries@[j].0@ == q);
                    } else {
                        assert(j != i);
                        assert(self.entries@[j - 1].0@ == q);
                    }
                }
                assert forall|a: int| 0 <= a < self.entries@.len() implies self.model@.contains_key(
                    (#[trigger] self.entries@[a]).0@,
                ) && self.model@[self.entries@[a].0@] == self.entries@[a].1@ by {
                    if a < i {
                        assert(self.entries@[a] == old_e[a]);
                    } else {
                        assert(self.entries@[a] == old_e[a + 1]);
                    }
                }
                true
            },
        }
    }

    /// Whether every key of `other` is a key here.
    pub fn has_all_keys_of(&self, other: &ByteMap) -> (r: bool)
        requires
            self.wf(),
            other.wf(),
        ensures
            r == other.view().dom().subset_of(self.view().dom()),
    {
        let mut i: usize = 0;
        while i < other.entries.len()
            invariant
                self.wf(),
                other.wf(),
                0 <= i <= other.entries@.len(),
                forall|j: int| 0 <= j < i ==> self.view().contains_key((#[trigger] other.entries@[j]).0@),
            decreases other.entries@.len() - i,
        {
            if !self.contains(other.entries[i].0.as_slice()) {
                return false;
            }
            i = i + 1;
        }
        assert forall|k: Seq<u8>| other.view().dom().contains(k) implies self.view().dom().contains(k) by {
            let j = choose|j: int| 0 <= j < other.entries@.len() && (#[trigger] other.entries@[j]).0@ == k;
        }
        true
    }
}

} // verus!
