//! Properties that relate several operations of the database.

use vstd::prelude::*;
use crate::db::{DbView, MAX_ID_LEN, consistent, insert_step};
use crate::distance::{sq_dist, lemma_distance_nonneg, lemma_self_distance_zero};
use crate::index::{EntryView, HitView, dims_match, has_id, hits_have_id, id_set, ids_distinct, is_nearest};

verus! {

/// Inserting `v` under `id` and then asking for the single nearest vector to
/// `v` gives distance zero; and when no other stored vector lies at distance
/// zero from `v`, the hit is `id` itself.
pub proof fn lemma_insert_then_search(s: DbView, dim: nat, id: Seq<char>, v: Seq<i32>, blob: Seq<u8>, r: Seq<HitView>)
    requires
        consistent(s),
        dims_match(s.0, dim),
        insert_step(s, dim, id, v, blob).1 is Ok,
        is_nearest(insert_step(s, dim, id, v, blob).0.0, v, 1, r),
    ensures
        r.len() == 1,
        r[0].1 == 0,
        (forall|j: int| 0 <= j < s.0.len() ==> sq_dist((#[trigger] s.0[j]).1, v) > 0) ==> r[0].0 == id,
{
    let e = s.0.push((id, v));
    let n = s.0.len() as int;
    assert(e[n] == (id, v));
    lemma_self_distance_zero(v, v.len());
    assert(sq_dist(v, v) == 0);
    let j = choose|j: int| 0 <= j < e.len() && (#[trigger] e[j]).0 == r[0].0 && r[0].1 == sq_dist(e[j].1, v);
    assert(e[j].1.len() == v.len()) by {
        if j < n {
            assert(e[j] == s.0[j]);
        }
    }
    lemma_distance_nonneg(e[j].1, v);
    if !hits_have_id(r, e[n].0) {
        assert(r[0].1 <= sq_dist(e[n].1, v));
    } else {
        assert(r[0].0 == id);
        if j < n {
            assert(e[j] == s.0[j]);
            assert(has_id(s.0, id));
        }
    }
    if forall|j: int| 0 <= j < s.0.len() ==> sq_dist((#[trigger] s.0[j]).1, v) > 0 {
        if j < n {
            assert(e[j] == s.0[j]);
            assert(sq_dist(s.0[j].1, v) > 0);
        }
    }
}

/// Once an entry is removed, no answer to any query names its id, and the
/// count is one less.
pub proof fn lemma_deleted_never_found(entries: Seq<EntryView>, i: int, q: Seq<i32>, k: nat, r: Seq<HitView>)
    requires
        ids_distinct(entries),
        0 <= i < entries.len(),
        is_nearest(entries.remove(i), q, k, r),
    ensures
        !hits_have_id(r, entries[i].0),
        entries.remove(i).len() == entries.len() - 1,
{
    let e = entries.remove(i);
    entries.remove_ensures(i);
    if hits_have_id(r, entries[i].0) {
        let t = choose|t: int| 0 <= t < r.len() && (#[trigger] r[t]).0 == entries[i].0;
        assert(r[t] == r[t]);
        let j = choose|j: int| 0 <= j < e.len() && (#[trigger] e[j]).0 == r[t].0 && r[t].1 == sq_dist(e[j].1, q);
        let oj = if j < i { j } else { j + 1 };
        assert(e[j] == entries[oj]);
    }
}

/// An answer has `min(k, count)` hits in ascending distance: all entries
/// when `k` exceeds the count, none when `k` is zero.
pub proof fn lemma_search_bounds(entries: Seq<EntryView>, q: Seq<i32>, k: nat, r: Seq<HitView>)
    requires
        is_nearest(entries, q, k, r),
    ensures
        k > entries.len() ==> r.len() == entries.len(),
        k == 0 ==> r.len() == 0,
        forall|i: int, j: int| 0 <= i < j < r.len() ==> (#[trigger] r[i]).1 <= (#[trigger] r[j]).1,
{
}

/// In a consistent state, the ids that a search for at least `count` hits
/// returns are exactly the ids that the metadata store holds.
pub proof fn lemma_search_ids_match_store(s: DbView, q: Seq<i32>, k: nat, r: Seq<HitView>)
    requires
        consistent(s),
        k >= s.0.len(),
        is_nearest(s.0, q, k, r),
    ensures
        Set::new(|id: Seq<char>| hits_have_id(r, id)) == s.1.dom(),
{
    assert forall|id: Seq<char>| hits_have_id(r, id) implies s.1.contains_key(id) by {
        let t = choose|t: int| 0 <= t < r.len() && (#[trigger] r[t]).0 == id;
        assert(r[t] == r[t]);
        let j = choose|j: int| 0 <= j < s.0.len() && (#[trigger] s.0[j]).0 == r[t].0 && r[t].1 == sq_dist(s.0[j].1, q);
        assert(id_set(s.0).contains(id));
    }
    assert forall|id: Seq<char>| s.1.contains_key(id) implies hits_have_id(r, id) by {
        assert(id_set(s.0).contains(id));
        let j = choose|j: int| 0 <= j < s.0.len() && (#[trigger] s.0[j]).0 == id;
    }
    assert(Set::new(|id: Seq<char>| hits_have_id(r, id)) =~= s.1.dom());
}

/// Applies `insert` for each `(id, vector, blob)` of the batch in turn:
/// the final state and whether every insert succeeded.
pub open spec fn insert_all(s: DbView, dim: nat, batch: Seq<(Seq<char>, Seq<i32>, Seq<u8>)>) -> (DbView, bool)
    decreases batch.len(),
{
    if batch.len() == 0 {
        (s, true)
    } else {
        let (p, ok) = insert_all(s, dim, batch.drop_last());
        let x = batch.last();
        let (t, res) = insert_step(p, dim, x.0, x.1, x.2);
        (t, ok && res is Ok)
    }
}

/// A batch of inserts with distinct, new ids of 1 to `MAX_ID_LEN`
/// characters and vectors of the right dimension all succeed, and the count grows by the batch's length.
pub proof fn lemma_distinct_inserts_all_succeed(s: DbView, dim: nat, batch: Seq<(Seq<char>, Seq<i32>, Seq<u8>)>)
    requires
        forall|i: int, j: int| 0 <= i < j < batch.len() ==> (#[trigger] batch[i]).0 != (#[trigger] batch[j]).0,
        forall|i: int| 0 <= i < batch.len() ==> !has_id(s.0, (#[trigger] batch[i]).0),
        forall|i: int| 0 <= i < batch.len() ==> 0 < (#[trigger] batch[i]).0.len() <= MAX_ID_LEN && batch[i].1.len() == dim,
    ensures
        insert_all(s, dim, batch).1,
        insert_all(s, dim, batch).0.0.len() == s.0.len() + batch.len(),
        insert_all(s, dim, batch).0.0 == s.0 + batch.map_values(|x: (Seq<char>, Seq<i32>, Seq<u8>)| (x.0, x.1)),
    decreases batch.len(),
{
    let f = |x: (Seq<char>, Seq<i32>, Seq<u8>)| (x.0, x.1);
    if batch.len() == 0 {
        assert(s.0 + batch.map_values(f) =~= s.0);
    } else {
        let pre = batch.drop_last();
        assert forall|i: int, j: int| 0 <= i < j < pre.len() implies (#[trigger] pre[i]).0 != (#[trigger] pre[j]).0 by {
            assert(pre[i] == batch[i] && pre[j] == batch[j]);
        }
        assert forall|i: int| 0 <= i < pre.len() implies !has_id(s.0, (#[trigger] pre[i]).0) by {
            assert(pre[i] == batch[i]);
        }
        assert forall|i: int| 0 <= i < pre.len() implies 0 < (#[trigger] pre[i]).0.len() <= MAX_ID_LEN && pre[i].1.len() == dim by {
            assert(pre[i] == batch[i]);
        }
        lemma_distinct_inserts_all_succeed(s, dim, pre);
        let p = insert_all(s, dim, pre).0;
        let x = batch.last();
        let m = batch.len() - 1;
        assert(x == batch[m]);
        assert(!has_id(p.0, x.0)) by {
            if has_id(p.0, x.0) {
                let j = choose|j: int| 0 <= j < p.0.len() && (#[trigger] p.0[j]).0 == x.0;
                if j < s.0.len() {
                    assert(p.0[j] == s.0[j]);
                } else {
                    assert(p.0[j] == f(pre[j - s.0.len()]));
                    assert(pre[j - s.0.len()] == batch[j - s.0.len()]);
                }
            }
        }
        assert(p.0.push(f(x)) =~= s.0 + batch.map_values(f));
    }
}

} // verus!
