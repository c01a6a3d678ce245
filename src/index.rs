//! The vector index: live nodes with unique ids and embeddings of one fixed
//! dimension, answering k-nearest-neighbour queries in ascending distance.

use vstd::prelude::*;
use crate::distance::{sq_dist, squared_distance};

verus! {

/// One indexed vector as the contracts see it: its id and its embedding.
pub type EntryView = (Seq<char>, Seq<i32>);

/// One search hit as the contracts see it: an id and its distance to the query.
pub type HitView = (Seq<char>, int);

/// Why the index refused an operation.
#[derive(Debug, Clone, Copy, PartialEq, Eq, Structural)]
pub enum IndexError {
    /// The embedding's length differs from the index dimension.
    DimensionMismatch,
    /// The id is already present.
    DuplicateId,
    /// The id is not present.
    NotFound,
}

/// A live node of the index.
pub struct Node {
    pub id: String,
    pub embedding: Vec<i32>,
}

/// Does some entry carry this id?
pub open spec fn has_id(entries: Seq<EntryView>, id: Seq<char>) -> bool {
    exists|j: int| 0 <= j < entries.len() && (#[trigger] entries[j]).0 == id
}

/// No two entries share an id.
pub open spec fn ids_distinct(entries: Seq<EntryView>) -> bool {
    forall|i: int, j: int|
        0 <= i < entries.len() && 0 <= j < entries.len() && i != j ==> (#[trigger] entries[i]).0
            != (#[trigger] entries[j]).0
}

/// Every embedding has the given length.
pub open spec fn dims_match(entries: Seq<EntryView>, dim: nat) -> bool {
    forall|j: int| 0 <= j < entries.len() ==> (#[trigger] entries[j]).1.len() == dim
}

/// The set of ids present in the entries.
pub open spec fn id_set(entries: Seq<EntryView>) -> Set<Seq<char>> {
    Set::new(|id: Seq<char>| has_id(entries, id))
}

/// The hit names an entry and gives that entry's distance to `q`.
pub open spec fn is_hit(entries: Seq<EntryView>, q: Seq<i32>, h: HitView) -> bool {
    exists|j: int| 0 <= j < entries.len() && (#[trigger] entries[j]).0 == h.0 && h.1 == sq_dist(entries[j].1, q)
}

/// Does some hit carry this id?
pub open spec fn hits_have_id(r: Seq<HitView>, id: Seq<char>) -> bool {
    exists|i: int| 0 <= i < r.len() && (#[trigger] r[i]).0 == id
}

/// `r` is a correct answer to a `k`-nearest query `q` over `entries`:
/// `min(k, n)` distinct entries with their distances, in ascending distance,
/// none farther than an entry left out, and every entry when `k >= n`.
pub open spec fn is_nearest(entries: Seq<EntryView>, q: Seq<i32>, k: nat, r: Seq<HitView>) -> bool {
    &&& r.len() == if k < entries.len() { k } else { entries.len() }
    &&& forall|i: int| 0 <= i < r.len() ==> is_hit(entries, q, #[trigger] r[i])
    &&& forall|i: int, j: int| 0 <= i < j < r.len() ==> (#[trigger] r[i]).0 != (#[trigger] r[j]).0
    &&& forall|i: int, j: int| 0 <= i < j < r.len() ==> (#[trigger] r[i]).1 <= (#[trigger] r[j]).1
    &&& forall|j: int, i: int|
        0 <= j < entries.len() && !hits_have_id(r, (#[trigger] entries[j]).0) && 0 <= i < r.len()
            ==> (#[trigger] r[i]).1 <= sq_dist(entries[j].1, q)
    &&& k >= entries.len() ==> forall|j: int| 0 <= j < entries.len() ==> hits_have_id(r, (#[trigger] entries[j]).0)
}

/// What a returned hit list is as the contracts see it.
pub open spec fn hits_view(r: Seq<(String, u128)>) -> Seq<HitView> {
    r.map_values(|h: (String, u128)| (h.0@, h.1 as int))
}

/// What `insert` does to the entries: `(entries after, outcome)`.
pub open spec fn insert_step(entries: Seq<EntryView>, dim: nat, id: Seq<char>, v: Seq<i32>) -> (Seq<EntryView>, Result<(), IndexError>) {
    if v.len() != dim {
        (entries, Err(IndexError::DimensionMismatch))
    } else if has_id(entries, id) {
        (entries, Err(IndexError::DuplicateId))
    } else {
        (entries.push((id, v)), Ok(()))
    }
}

/// A fixed-dimension index of uniquely identified embeddings.
pub struct VectorIndex {
    dimension: usize,
    nodes: Vec<Node>,
}

impl VectorIndex {
    /// The live entries, in the order they are held.
    pub closed spec fn entries(&self) -> Seq<EntryView> {
        self.nodes@.map_values(|n: Node| (n.id@, n.embedding@))
    }

    /// The configured dimension.
    pub closed spec fn dim(&self) -> nat {
        self.dimension as nat
    }

    /// Ids are unique and every embedding has the configured dimension.
    pub open spec fn wf(&self) -> bool {
        &&& ids_distinct(self.entries())
        &&& dims_match(self.entries(), self.dim())
    }

    /// An empty index of the given dimension.
    pub fn new(dimension: usize) -> (r: Self)
        ensures
            r.wf(),
            r.dim() == dimension,
            r.entries() == Seq::<EntryView>::empty(),
    {
        let r = VectorIndex { dimension, nodes: Vec::new() };
        assert(r.entries() =~= Seq::<EntryView>::empty());
        r
    }

    /// The configured dimension.
    pub fn dimension(&self) -> (r: usize)
        ensures
            r == self.dim(),
    {
        self.dimension
    }

    /// Number of live nodes.
    pub fn len(&self) -> (r: usize)
        ensures
            r == self.entries().len(),
    {
        self.nodes.len()
    }

    /// Position of the node with this id, if any.
    pub fn find(&self, id: &String) -> (r: Option<usize>)
        ensures
            match r {
                Some(i) => i < self.entries().len() && self.entries()[i as int].0 == id@,
                None => !has_id(self.entries(), id@),
            },
    {
        let mut i: usize = 0;
        while i < self.nodes.len()
            invariant
                i <= self.nodes@.len(),
                forall|j: int| 0 <= j < i ==> (#[trigger] self.entries()[j]).0 != id@,
            decreases self.nodes@.len() - i,
        {
            if self.nodes[i].id == *id {
                return Some(i);
            }
            i = i + 1;
        }
        None
    }

    /// Adds a node; refuses a wrong dimension first, then a present id.
    pub fn insert(&mut self, id: String, embedding: Vec<i32>) -> (r: Result<(), IndexError>)
        requires
            old(self).wf(),
        ensures
            final(self).wf(),
            final(self).dim() == old(self).dim(),
            (final(self).entries(), r) == insert_step(old(self).entries(), old(self).dim(), id@, embedding@),
    {
        if embedding.len() != self.dimension {
            return Err(IndexError::DimensionMismatch);
        }
        match self.find(&id) {
            Some(_) => Err(IndexError::DuplicateId),
            None => {
                let ghost before = self.entries();
                let ghost idv = id@;
                let ghost ev = embedding@;
                self.nodes.push(Node { id, embedding });
                assert(self.entries() =~= before.push((idv, ev)));
                Ok(())
            },
        }
    }

    /// Removes the node with this id.
    pub fn remove(&mut self, id: &String) -> (r: Result<(), IndexError>)
        requires
            old(self).wf(),
        ensures
            final(self).wf(),
            final(self).dim() == old(self).dim(),
            match r {
                Ok(()) => exists|i: int|
                    0 <= i < old(self).entries().len() && (#[trigger] old(self).entries()[i]).0 == id@
                        && final(self).entries() == old(self).entries().remove(i),
                Err(e) => e == IndexError::NotFound && !has_id(old(self).entries(), id@)
                    && final(self).entries() == old(self).entries(),
            },
    {
        match self.find(id) {
            None => Err(IndexError::NotFound),
            Some(i) => {
                let ghost before = self.entries();
                self.nodes.remove(i);
                assert(self.entries() =~= before.remove(i as int));
                Ok(())
            },
        }
    }
    /// Distances from `q` to every node, in node order.
    fn distances(&self, q: &Vec<i32>) -> (r: Vec<u128>)
        requires
            self.wf(),
            q@.len() == self.dim(),
        ensures
            r@.len() == self.entries().len(),
            forall|j: int| 0 <= j < r@.len() ==> (#[trigger] r@[j]) as int == sq_dist(self.entries()[j].1, q@),
    {
        let mut r: Vec<u128> = Vec::new();
        let mut j: usize = 0;
        while j < self.nodes.len()
            invariant
                self.wf(),
                q@.len() == self.dim(),
                j <= self.nodes@.len(),
                r@.len() == j,
                forall|t: int| 0 <= t < j ==> (#[trigger] r@[t]) as int == sq_dist(self.entries()[t].1, q@),
            decreases self.nodes@.len() - j,
        {
            assert(self.entries()[j as int].1 == self.nodes@[j as int].embedding@);
            let d = squared_distance(&self.nodes[j].embedding, q);
            r.push(d);
            j = j + 1;
        }
        r
    }

    /// The `k` nodes nearest to `q`, as `(id, distance)` in ascending distance;
    /// every node when `k` exceeds the count, none when `k` is zero.
    pub fn search(&self, q: &Vec<i32>, k: usize) -> (r: Vec<(String, u128)>)
        requires
            self.wf(),
            q@.len() == self.dim(),
        ensures
            is_nearest(self.entries(), q@, k as nat, hits_view(r@)),
    {
        let ghost es = self.entries();
        let dist = self.distances(q);
        let n = self.nodes.len();
        let mut cand: Vec<usize> = Vec::new();
        let mut c: usize = 0;
        while c < n
            invariant
                n == es.len(),
                c <= n,
                cand@ == Seq::new(c as nat, |t: int| t as usize),
            decreases n - c,
        {
            cand.push(c);
            c = c + 1;
            assert(cand@ =~= Seq::new(c as nat, |t: int| t as usize));
        }
        proof {
            assert forall|j: int| 0 <= j < n implies #[trigger] cand@.contains(j as usize) by {
                assert(cand@[j] == j as usize);
            }
        }
        let want: usize = if k < n { k } else { n };
        let mut r: Vec<(String, u128)> = Vec::new();
        let ghost mut picked: Seq<int> = Seq::empty();
        while r.len() < want
            invariant
                es == self.entries(),
                self.wf(),
                n == es.len(),
                dist@.len() == n,
                forall|j: int| 0 <= j < n ==> (#[trigger] dist@[j]) as int == sq_dist(es[j].1, q@),
                want <= n,
                want == (if k < n { k } else { n }),
                r@.len() <= want,
                picked.len() == r@.len(),
                cand@.len() + picked.len() == n,
                forall|t: int| 0 <= t < cand@.len() ==> (#[trigger] cand@[t]) < n,
                forall|t: int| 0 <= t < picked.len() ==> 0 <= #[trigger] picked[t] < n,
                forall|t: int, u: int| 0 <= t < u < cand@.len() ==> (#[trigger] cand@[t]) != (#[trigger] cand@[u]),
                forall|t: int, u: int| 0 <= t < u < picked.len() ==> (#[trigger] picked[t]) != (#[trigger] picked[u]),
                forall|t: int, u: int| 0 <= t < cand@.len() && 0 <= u < picked.len() ==> (#[trigger] cand@[t]) as int != (#[trigger] picked[u]),
                forall|j: int| 0 <= j < n ==> picked.contains(j) || cand@.contains(j as usize),
                forall|t: int| 0 <= t < r@.len() ==> (#[trigger] r@[t]).0@ == es[picked[t]].0 && r@[t].1 as int == sq_dist(es[picked[t]].1, q@),
                forall|t: int, u: int| 0 <= t < u < r@.len() ==> (#[trigger] r@[t]).1 <= (#[trigger] r@[u]).1,
                forall|t: int, u: int| 0 <= t < cand@.len() && 0 <= u < r@.len() ==> (#[trigger] r@[u]).1 <= dist@[(#[trigger] cand@[t]) as int],
            decreases want - r@.len(),
        {
            let mut best: usize = 0;
            let mut p: usize = 1;
            while p < cand.len()
                invariant
                    cand@.len() > 0,
                    forall|t: int| 0 <= t < cand@.len() ==> (#[trigger] cand@[t]) < n,
                    dist@.len() == n,
                    best < cand@.len(),
                    1 <= p <= cand@.len(),
                    forall|t: int| 0 <= t < p ==> dist@[cand@[best as int] as int] <= dist@[(#[trigger] cand@[t]) as int],
                decreases cand@.len() - p,
            {
                if dist[cand[p]] < dist[cand[best]] {
                    best = p;
                }
                p = p + 1;
            }
            let ghost old_cand = cand@;
            let ghost old_picked = picked;
            let ghost old_r = r@;
            let j = cand.remove(best);
            proof {
                old_cand.remove_ensures(best as int);
                picked = picked.push(j as int);
                assert forall|x: int| 0 <= x < n implies picked.contains(x) || cand@.contains(x as usize) by {
                    if old_picked.contains(x) {
                        let u = choose|u: int| 0 <= u < old_picked.len() && old_picked[u] == x;
                        assert(picked[u] == x);
                    } else {
                        let t = choose|t: int| 0 <= t < old_cand.len() && old_cand[t] == x as usize;
                        if t < best {
                            assert(cand@[t] == x as usize);
                        } else if t > best {
                            assert(cand@[t - 1] == x as usize);
                        } else {
                            assert(picked[old_picked.len() as int] == x);
                        }
                    }
                }
            }
            r.push((self.nodes[j].id.clone(), dist[j]));
            proof {
                assert forall|t: int, u: int| 0 <= t < cand@.len() && 0 <= u < r@.len() implies (#[trigger] r@[u]).1 <= dist@[(#[trigger] cand@[t]) as int] by {
                    if t < best {
                        assert(cand@[t] == old_cand[t]);
                    } else {
                        assert(cand@[t] == old_cand[t + 1]);
                    }
                }
            }
        }
        proof {
            let hv = hits_view(r@);
            assert forall|i: int| 0 <= i < hv.len() implies is_hit(es, q@, #[trigger] hv[i]) by {
                assert(es[picked[i]].0 == hv[i].0);
            }
            assert forall|i: int, j: int| 0 <= i < j < hv.len() implies (#[trigger] hv[i]).0 != (#[trigger] hv[j]).0 by {
                assert(picked[i] != picked[j]);
            }
            assert forall|j: int, i: int|
                0 <= j < es.len() && !hits_have_id(hv, (#[trigger] es[j]).0) && 0 <= i < hv.len()
                implies (#[trigger] hv[i]).1 <= sq_dist(es[j].1, q@) by {
                if picked.contains(j) {
                    let u = choose|u: int| 0 <= u < picked.len() && picked[u] == j;
                    assert(hv[u].0 == es[j].0);
                } else {
                    let t = choose|t: int| 0 <= t < cand@.len() && cand@[t] == j as usize;
                    assert(r@[i].1 <= dist@[cand@[t] as int]);
                }
            }
            if k >= es.len() {
                assert forall|j: int| 0 <= j < es.len() implies hits_have_id(hv, (#[trigger] es[j]).0) by {
                    assert(cand@.len() == 0);
                    if picked.contains(j) {
                        let u = choose|u: int| 0 <= u < picked.len() && picked[u] == j;
                        assert(hv[u].0 == es[j].0);
                    } else {
                        assert(cand@.contains(j as usize));
                    }
                }
            }
        }
        r
    }
}

} // verus!
