//! The metadata store: each id maps to an opaque serialized blob.

use vstd::prelude::*;

verus! {

/// Why the store refused an operation.
#[derive(Debug, Clone, Copy, PartialEq, Eq, Structural)]
pub enum StoreError {
    /// The id is not present.
    NotFound,
}

/// Key-value store from id to metadata bytes, with a unique entry per key.
pub struct MetadataStore {
    entries: Vec<(String, Vec<u8>)>,
    model: Ghost<Map<Seq<char>, Seq<u8>>>,
}

impl MetadataStore {
    /// The stored blobs by id.
    pub closed spec fn view(&self) -> Map<Seq<char>, Seq<u8>> {
        self.model@
    }

    /// The held entries agree with the map: one entry per key, no other keys.
    pub closed spec fn wf(&self) -> bool {
        &&& forall|i: int, j: int|
            0 <= i < self.entries@.len() && 0 <= j < self.entries@.len() && i != j
                ==> (#[trigger] self.entries@[i]).0@ != (#[trigger] self.entries@[j]).0@
        &&& forall|i: int| 0 <= i < self.entries@.len() ==> self.model@.contains_key((#[trigger] self.entries@[i]).0@)
            && self.model@[self.entries@[i].0@] == self.entries@[i].1@
        &&& forall|k: Seq<char>| #[trigger] self.model@.contains_key(k) ==> exists|i: int|
            0 <= i < self.entries@.len() && (#[trigger] self.entries@[i]).0@ == k
    }

    /// An empty store.
    pub fn new() -> (r: Self)
        ensures
            r.wf(),
            r.view() == Map::<Seq<char>, Seq<u8>>::empty(),
    {
        MetadataStore { entries: Vec::new(), model: Ghost(Map::empty()) }
    }

    /// Number of stored entries.
    pub fn len(&self) -> (r: usize)
        requires
            self.wf(),
        ensures
            r == self.view().len(),
    {
        proof { self.lemma_len(); }
        self.entries.len()
    }

    proof fn lemma_len(&self)
        requires
            self.wf(),
        ensures
            self.view().len() == self.entries@.len(),
            self.view().dom().finite(),
    {
        let ks = self.entries@.map_values(|e: (String, Vec<u8>)| e.0@);
        assert(ks.no_duplicates()) by {
            assert forall|i: int, j: int| 0 <= i < ks.len() && 0 <= j < ks.len() && i != j implies ks[i] != ks[j] by {
                assert(self.entries@[i].0@ != self.entries@[j].0@);
            }
        }
        assert(ks.to_set() =~= self.model@.dom()) by {
            assert forall|k: Seq<char>| ks.to_set().contains(k) implies self.model@.contains_key(k) by {
                let i = choose|i: int| 0 <= i < ks.len() && ks[i] == k;
                assert(self.model@.contains_key(self.entries@[i].0@));
            }
            assert forall|k: Seq<char>| self.model@.contains_key(k) implies ks.to_set().contains(k) by {
                let i = choose|i: int| 0 <= i < self.entries@.len() && (#[trigger] self.entries@[i]).0@ == k;
                assert(ks[i] == k);
            }
        }
        ks.unique_seq_to_set();
    }

    /// Position of the entry with this id, if any.
    fn position(&self, id: &String) -> (r: Option<usize>)
        requires
            self.wf(),
        ensures
            match r {
                Some(i) => i < self.entries@.len() && self.entries@[i as int].0@ == id@,
                None => !self.view().contains_key(id@),
            },
    {
        let mut i: usize = 0;
        while i < self.entries.len()
            invariant
                i <= self.entries@.len(),
                forall|j: int| 0 <= j < i ==> (#[trigger] self.entries@[j]).0@ != id@,
            decreases self.entries@.len() - i,
        {
            if self.entries[i].0 == *id {
                return Some(i);
            }
            i = i + 1;
        }
        None
    }

    /// The blob stored under this id.
    pub fn get(&self, id: &String) -> (r: Option<Vec<u8>>)
        requires
            self.wf(),
        ensures
            match r {
                Some(b) => self.view().contains_key(id@) && b@ == self.view()[id@],
                None => !self.view().contains_key(id@),
            },
    {
        match self.position(id) {
            Some(i) => Some(self.entries[i].1.clone()),
            None => None,
        }
    }

    /// Stores `blob` under `id`, replacing what was there.
    pub fn put(&mut self, id: String, blob: Vec<u8>)
        requires
            old(self).wf(),
        ensures
            final(self).wf(),
            final(self).view() == old(self).view().insert(id@, blob@),
    {
        let ghost m = self.model@.insert(id@, blob@);
        let ghost before = self.entries@;
        let ghost idv = id@;
        let pos = self.position(&id);
        match pos {
            Some(i) => {
                self.entries.set(i, (id, blob));
            },
            None => {
                self.entries.push((id, blob));
            },
        }
        self.model = Ghost(m);
        proof {
            assert forall|k: Seq<char>| #[trigger] self.model@.contains_key(k) implies exists|t: int|
                0 <= t < self.entries@.len() && (#[trigger] self.entries@[t]).0@ == k by {
                if k == idv {
                    match pos {
                        Some(i) => assert(self.entries@[i as int].0@ == k),
                        None => assert(self.entries@[before.len() as int].0@ == k),
                    }
                } else {
                    let t = choose|t: int| 0 <= t < before.len() && (#[trigger] before[t]).0@ == k;
                    assert(self.entries@[t] == before[t]);
                }
            }
        }
    }

    /// Removes the entry with this id.
    pub fn delete(&mut self, id: &String) -> (r: Result<(), StoreError>)
        requires
            old(self).wf(),
        ensures
            final(self).wf(),
            match r {
                Ok(()) => old(self).view().contains_key(id@) && final(self).view() == old(self).view().remove(id@),
                Err(e) => e == StoreError::NotFound && !old(self).view().contains_key(id@)
                    && final(self).view() == old(self).view(),
            },
    {
        match self.position(id) {
            None => Err(StoreError::NotFound),
            Some(i) => {
                let ghost before = self.entries@;
                self.entries.remove(i);
                self.model = Ghost(self.model@.remove(id@));
                proof {
                    before.remove_ensures(i as int);
                    assert forall|k: Seq<char>| #[trigger] self.model@.contains_key(k) implies exists|t: int|
                        0 <= t < self.entries@.len() && (#[trigger] self.entries@[t]).0@ == k by {
                        let t = choose|t: int| 0 <= t < before.len() && (#[trigger] before[t]).0@ == k;
                        if t < i {
                            assert(self.entries@[t] == before[t]);
                        } else {
                            assert(self.entries@[t - 1] == before[t]);
                        }
                    }
                }
                Ok(())
            },
        }
    }

    /// Every entry, for writing out.
    pub fn to_entries(&self) -> (r: Vec<(String, Vec<u8>)>)
        requires
            self.wf(),
        ensures
            r@.len() == self.view().len(),
            forall|i: int| 0 <= i < r@.len() ==> self.view().contains_key((#[trigger] r@[i]).0@)
                && self.view()[r@[i].0@] == r@[i].1@,
            forall|i: int, j: int| 0 <= i < j < r@.len() ==> (#[trigger] r@[i]).0@ != (#[trigger] r@[j]).0@,
            forall|k: Seq<char>| #[trigger] self.view().contains_key(k) ==> exists|i: int|
                0 <= i < r@.len() && (#[trigger] r@[i]).0@ == k,
    {
        proof { self.lemma_len(); }
        let mut out: Vec<(String, Vec<u8>)> = Vec::new();
        let mut i: usize = 0;
        while i < self.entries.len()
            invariant
                self.wf(),
                i <= self.entries@.len(),
                out@.len() == i,
                forall|t: int| 0 <= t < i ==> (#[trigger] out@[t]).0@ == self.entries@[t].0@ && out@[t].1@ == self.entries@[t].1@,
            decreases self.entries@.len() - i,
        {
            let e = (self.entries[i].0.clone(), self.entries[i].1.clone());
            out.push(e);
            i = i + 1;
        }
        proof {
            assert forall|t: int| 0 <= t < out@.len() implies self.view().contains_key((#[trigger] out@[t]).0@)
                && self.view()[out@[t].0@] == out@[t].1@ by {
                assert(self.model@.contains_key(self.entries@[t].0@));
            }
            assert forall|i: int, j: int| 0 <= i < j < out@.len() implies (#[trigger] out@[i]).0@ != (#[trigger] out@[j]).0@ by {
                assert(self.entries@[i].0@ != self.entries@[j].0@);
            }
            assert forall|k: Seq<char>| #[trigger] self.view().contains_key(k) implies exists|i: int|
                0 <= i < out@.len() && (#[trigger] out@[i]).0@ == k by {
                let i = choose|i: int| 0 <= i < self.entries@.len() && (#[trigger] self.entries@[i]).0@ == k;
                assert(out@[i].0@ == k);
            }
        }
        out
    }
}

} // verus!
