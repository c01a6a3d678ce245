//! The database: an index and a metadata store mutated together, so that
//! both always hold the same ids.

use vstd::prelude::*;
use vstd::string::StrSliceExecFns;
use crate::index::{
    EntryView, IndexError, VectorIndex, has_id, hits_view, id_set, ids_distinct, is_nearest,
};
use crate::store::{MetadataStore, StoreError};

verus! {

/// Why the database refused an operation.
#[derive(Debug, Clone, Copy, PartialEq, Eq, Structural)]
pub enum DbError {
    /// A vector's length differs from the configured dimension.
    DimensionMismatch,
    /// An insert named an id that is already present.
    DuplicateId,
    /// The id is not present.
    NotFound,
    /// A field is malformed (an id of no or too many characters, a request
    /// count out of range).
    ValidationError,
    /// Durable storage could not be read or written.
    StorageIOError,
    /// The index and the store disagree after a partial failure.
    InternalInconsistency,
}

/// The longest id accepted, in characters.
pub const MAX_ID_LEN: usize = 255;

/// The number of hits a search request asks for when it names none.
pub const DEFAULT_K: usize = 10;

/// The most hits a search request may ask for.
pub const MAX_K: usize = 100;

/// The hit count a search request asks for: the default when absent, else
/// a value from 1 to `MAX_K`.
pub fn request_k(k: Option<usize>) -> (r: Result<usize, DbError>)
    ensures
        match k {
            None => r == Ok::<usize, DbError>(DEFAULT_K),
            Some(n) => if 1 <= n <= MAX_K { r == Ok::<usize, DbError>(n) } else { r == Err::<usize, DbError>(DbError::ValidationError) },
        },
{
    match k {
        None => Ok(DEFAULT_K),
        Some(n) => if 1 <= n && n <= MAX_K { Ok(n) } else { Err(DbError::ValidationError) },
    }
}

/// The database as the contracts see it: `(entries, blobs)`.
pub type DbView = (Seq<EntryView>, Map<Seq<char>, Seq<u8>>);

/// What `insert` does: the new state and the outcome. The dimension is
/// checked first, then the id's length (1 to `MAX_ID_LEN` characters), then
/// its absence.
pub open spec fn insert_step(s: DbView, dim: nat, id: Seq<char>, v: Seq<i32>, blob: Seq<u8>) -> (DbView, Result<(), DbError>) {
    if v.len() != dim {
        (s, Err(DbError::DimensionMismatch))
    } else if id.len() == 0 || id.len() > MAX_ID_LEN {
        (s, Err(DbError::ValidationError))
    } else if has_id(s.0, id) {
        (s, Err(DbError::DuplicateId))
    } else {
        ((s.0.push((id, v)), s.1.insert(id, blob)), Ok(()))
    }
}

/// Ids are unique and of accepted length, and the index's id set equals
/// the store's key set.
pub open spec fn consistent(s: DbView) -> bool {
    &&& ids_distinct(s.0)
    &&& forall|j: int| 0 <= j < s.0.len() ==> 0 < (#[trigger] s.0[j]).0.len() <= MAX_ID_LEN
    &&& id_set(s.0) == s.1.dom()
}

/// A vector database of fixed dimension.
pub struct VectorDB {
    index: VectorIndex,
    store: MetadataStore,
}

impl VectorDB {
    /// Entries of the index and blobs of the store.
    pub closed spec fn view(&self) -> DbView {
        (self.index.entries(), self.store.view())
    }

    /// The configured dimension.
    pub closed spec fn dim(&self) -> nat {
        self.index.dim()
    }

    /// Both parts are well formed and hold the same ids.
    pub closed spec fn wf(&self) -> bool {
        &&& self.index.wf()
        &&& self.store.wf()
        &&& consistent(self.view())
    }

    /// Every embedding has the configured dimension.
    pub proof fn lemma_wf(&self)
        requires
            self.wf(),
        ensures
            consistent(self.view()),
            forall|j: int| 0 <= j < self.view().0.len() ==> (#[trigger] self.view().0[j]).1.len() == self.dim(),
    {
    }

    /// An empty database of the given dimension.
    pub fn new(dimension: usize) -> (r: VectorDB)
        ensures
            r.wf(),
            r.dim() == dimension,
            r.view().0.len() == 0,
            r.view().1 == Map::<Seq<char>, Seq<u8>>::empty(),
    {
        let db = VectorDB { index: VectorIndex::new(dimension), store: MetadataStore::new() };
        assert(id_set(db.view().0) =~= db.view().1.dom());
        db
    }

    /// Inserts a vector with its metadata blob.
    pub fn insert(&mut self, id: String, vector: Vec<i32>, metadata: Vec<u8>) -> (r: Result<(), DbError>)
        requires
            old(self).wf(),
        ensures
            final(self).wf(),
            final(self).dim() == old(self).dim(),
            (final(self).view(), r) == insert_step(old(self).view(), old(self).dim(), id@, vector@, metadata@),
            vector@.len() == old(self).dim() && has_id(old(self).view().0, id@) ==> r == Err::<(), DbError>(DbError::DuplicateId),
    {
        if vector.len() != self.index.dimension() {
            return Err(DbError::DimensionMismatch);
        }
        let id_len = id.as_str().unicode_len();
        if id_len == 0 || id_len > MAX_ID_LEN {
            return Err(DbError::ValidationError);
        }
        let ghost s = self.view();
        proof {
            if has_id(s.0, id@) {
                let j = choose|j: int| 0 <= j < s.0.len() && (#[trigger] s.0[j]).0 == id@;
            }
        }
        let key = id.clone();
        match self.index.insert(id, vector) {
            Err(IndexError::DuplicateId) => Err(DbError::DuplicateId),
            Err(_) => Err(DbError::DimensionMismatch),
            Ok(()) => {
                self.store.put(key, metadata);
                proof {
                    let e = self.view().0;
                    assert(id_set(e) =~= self.view().1.dom()) by {
                        assert forall|k: Seq<char>| has_id(e, k) implies self.view().1.contains_key(k) by {
                            let j = choose|j: int| 0 <= j < e.len() && (#[trigger] e[j]).0 == k;
                            if j < s.0.len() {
                                assert(s.0[j] == e[j]);
                                assert(id_set(s.0).contains(k));
                            }
                        }
                        assert forall|k: Seq<char>| self.view().1.contains_key(k) implies has_id(e, k) by {
                            if k == key@ {
                                assert(e[s.0.len() as int].0 == k);
                            } else {
                                assert(id_set(s.0).contains(k));
                                let j = choose|j: int| 0 <= j < s.0.len() && (#[trigger] s.0[j]).0 == k;
                                assert(e[j] == s.0[j]);
                            }
                        }
                    }
                }
                Ok(())
            },
        }
    }

    /// The `k` stored vectors nearest to `query`, as `(id, distance)` in
    /// ascending distance.
    pub fn search(&self, query: &Vec<i32>, k: usize) -> (r: Result<Vec<(String, u128)>, DbError>)
        requires
            self.wf(),
        ensures
            match r {
                Ok(hits) => query@.len() == self.dim() && is_nearest(self.view().0, query@, k as nat, hits_view(hits@)),
                Err(e) => e == DbError::DimensionMismatch && query@.len() != self.dim(),
            },
    {
        if query.len() != self.index.dimension() {
            return Err(DbError::DimensionMismatch);
        }
        Ok(self.index.search(query, k))
    }

    /// Deletes the vector and its metadata.
    pub fn delete(&mut self, id: &String) -> (r: Result<(), DbError>)
        requires
            old(self).wf(),
        ensures
            final(self).wf(),
            final(self).dim() == old(self).dim(),
            match r {
                Ok(()) => exists|i: int|
                    0 <= i < old(self).view().0.len() && (#[trigger] old(self).view().0[i]).0 == id@
                        && final(self).view().0 == old(self).view().0.remove(i)
                        && final(self).view().1 == old(self).view().1.remove(id@),
                Err(e) => e == DbError::NotFound && !has_id(old(self).view().0, id@)
                    && final(self).view() == old(self).view(),
            },
    {
        let ghost s = self.view();
        match self.index.remove(id) {
            Err(_) => Err(DbError::NotFound),
            Ok(()) => {
                proof {
                    let i = choose|i: int| 0 <= i < s.0.len() && (#[trigger] s.0[i]).0 == id@
                        && self.view().0 == s.0.remove(i);
                    assert(id_set(s.0).contains(id@));
                }
                match self.store.delete(id) {
                    Err(StoreError::NotFound) => Err(DbError::InternalInconsistency),
                    Ok(()) => {
                        proof {
                            let i = choose|i: int| 0 <= i < s.0.len() && (#[trigger] s.0[i]).0 == id@
                                && self.view().0 == s.0.remove(i);
                            let e = self.view().0;
                            s.0.remove_ensures(i);
                            assert(id_set(e) =~= self.view().1.dom()) by {
                                assert forall|k: Seq<char>| has_id(e, k) implies self.view().1.contains_key(k) by {
                                    let j = choose|j: int| 0 <= j < e.len() && (#[trigger] e[j]).0 == k;
                                    let oj = if j < i { j } else { j + 1 };
                                    assert(e[j] == s.0[oj]);
                                    assert(id_set(s.0).contains(k));
                                }
                                assert forall|k: Seq<char>| self.view().1.contains_key(k) implies has_id(e, k) by {
                                    assert(id_set(s.0).contains(k));
                                    let j = choose|j: int| 0 <= j < s.0.len() && (#[trigger] s.0[j]).0 == k;
                                    if j < i {
                                        assert(e[j] == s.0[j]);
                                    } else {
                                        assert(e[j - 1] == s.0[j]);
                                    }
                                }
                            }
                        }
                        Ok(())
                    },
                }
            },
        }
    }

    /// Number of stored vectors.
    pub fn count(&self) -> (r: usize)
        ensures
            r == self.view().0.len(),
    {
        self.index.len()
    }

    /// The configured dimension.
    pub fn dimension(&self) -> (r: usize)
        ensures
            r == self.dim(),
    {
        self.index.dimension()
    }

    /// The metadata blob stored under `id`.
    pub fn get(&self, id: &String) -> (r: Option<Vec<u8>>)
        requires
            self.wf(),
        ensures
            match r {
                Some(b) => self.view().1.contains_key(id@) && b@ == self.view().1[id@],
                None => !self.view().1.contains_key(id@),
            },
    {
        self.store.get(id)
    }

    /// Closes the database, discarding the index and handing back every
    /// metadata entry to be written out.
    pub fn close(self) -> (r: Vec<(String, Vec<u8>)>)
        requires
            self.wf(),
        ensures
            r@.len() == self.view().1.len(),
            forall|i: int| 0 <= i < r@.len() ==> self.view().1.contains_key((#[trigger] r@[i]).0@)
                && self.view().1[r@[i].0@] == r@[i].1@,
    {
        self.store.to_entries()
    }
}

} // verus!
