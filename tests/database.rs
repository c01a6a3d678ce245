use vectordb::db::{request_k, DbError, VectorDB, DEFAULT_K, MAX_ID_LEN};
use vectordb::distance::squared_distance;
use vectordb::index::{IndexError, VectorIndex};
use vectordb::store::{MetadataStore, StoreError};

fn s(x: &str) -> String {
    x.to_string()
}

#[test]
fn test_insert_and_search() {
    let mut db = VectorDB::new(128);
    let mut v = vec![0i32; 128];
    v[3] = 7;
    db.insert(s("doc"), v.clone(), b"{}".to_vec()).unwrap();
    let hits = db.search(&v, 10).unwrap();
    assert_eq!(hits, vec![(s("doc"), 0u128)]);
}

#[test]
fn two_vectors_scenario() {
    let mut db = VectorDB::new(4);
    db.insert(s("a"), vec![10, 0, 0, 0], vec![]).unwrap();
    db.insert(s("b"), vec![0, 10, 0, 0], vec![]).unwrap();
    assert_eq!(db.search(&vec![10, 0, 0, 0], 1).unwrap(), vec![(s("a"), 0u128)]);
    let hits = db.search(&vec![9, 1, 0, 0], 2).unwrap();
    assert_eq!(hits, vec![(s("a"), 2u128), (s("b"), 162u128)]);
    assert!(hits[0].1 < hits[1].1);
}

#[test]
fn insert_then_search_round_trip() {
    let mut db = VectorDB::new(3);
    db.insert(s("p"), vec![1, 2, 3], vec![]).unwrap();
    db.insert(s("q"), vec![-5, 4, 0], vec![]).unwrap();
    db.insert(s("r"), vec![100, -100, 7], vec![]).unwrap();
    for (id, v) in [("p", vec![1, 2, 3]), ("q", vec![-5, 4, 0]), ("r", vec![100, -100, 7])] {
        assert_eq!(db.search(&v, 1).unwrap(), vec![(s(id), 0u128)]);
    }
}

#[test]
fn delete_removes_and_decrements() {
    let mut db = VectorDB::new(2);
    db.insert(s("a"), vec![0, 0], b"A".to_vec()).unwrap();
    db.insert(s("b"), vec![1, 1], b"B".to_vec()).unwrap();
    assert_eq!(db.count(), 2);
    db.delete(&s("a")).unwrap();
    assert_eq!(db.count(), 1);
    let hits = db.search(&vec![0, 0], 5).unwrap();
    assert_eq!(hits, vec![(s("b"), 2u128)]);
    assert_eq!(db.get(&s("a")), None);
    assert_eq!(db.get(&s("b")), Some(b"B".to_vec()));
}

#[test]
fn delete_missing_is_not_found_and_changes_nothing() {
    let mut db = VectorDB::new(2);
    db.insert(s("a"), vec![0, 0], vec![]).unwrap();
    assert_eq!(db.delete(&s("zz")), Err(DbError::NotFound));
    assert_eq!(db.count(), 1);
    assert_eq!(db.search(&vec![0, 0], 5).unwrap(), vec![(s("a"), 0u128)]);
}

#[test]
fn wrong_dimension_is_refused() {
    let mut db = VectorDB::new(3);
    assert_eq!(db.insert(s("a"), vec![1, 2], vec![]), Err(DbError::DimensionMismatch));
    assert_eq!(db.insert(s("a"), vec![1, 2, 3, 4], vec![]), Err(DbError::DimensionMismatch));
    assert_eq!(db.count(), 0);
    assert_eq!(db.search(&vec![1], 1), Err(DbError::DimensionMismatch));
}

#[test]
fn duplicate_and_empty_ids_are_refused() {
    let mut db = VectorDB::new(1);
    db.insert(s("a"), vec![1], b"first".to_vec()).unwrap();
    assert_eq!(db.insert(s("a"), vec![2], vec![]), Err(DbError::DuplicateId));
    assert_eq!(db.insert(s(""), vec![2], vec![]), Err(DbError::ValidationError));
    assert_eq!(db.count(), 1);
    assert_eq!(db.get(&s("a")), Some(b"first".to_vec()));
}

#[test]
fn k_bounds() {
    let mut db = VectorDB::new(1);
    assert_eq!(db.search(&vec![0], 3).unwrap(), vec![]);
    db.insert(s("x"), vec![5], vec![]).unwrap();
    db.insert(s("y"), vec![-1], vec![]).unwrap();
    db.insert(s("z"), vec![2], vec![]).unwrap();
    assert_eq!(db.search(&vec![0], 0).unwrap(), vec![]);
    let all = db.search(&vec![0], 100).unwrap();
    assert_eq!(all, vec![(s("y"), 1u128), (s("z"), 4u128), (s("x"), 25u128)]);
    assert_eq!(db.search(&vec![0], 2).unwrap().len(), 2);
}

#[test]
fn search_ids_match_store() {
    let mut db = VectorDB::new(2);
    for (i, id) in ["a", "b", "c", "d"].iter().enumerate() {
        db.insert(s(id), vec![i as i32, 0], id.as_bytes().to_vec()).unwrap();
    }
    db.delete(&s("b")).unwrap();
    let mut ids: Vec<String> = db.search(&vec![0, 0], 10).unwrap().into_iter().map(|h| h.0).collect();
    ids.sort();
    let mut stored: Vec<String> = db.close().into_iter().map(|e| e.0).collect();
    stored.sort();
    assert_eq!(ids, vec![s("a"), s("c"), s("d")]);
    assert_eq!(ids, stored);
}

#[test]
fn distinct_inserts_all_succeed() {
    let mut db = VectorDB::new(2);
    for i in 0..50 {
        assert_eq!(db.insert(format!("id{}", i), vec![i, -i], vec![]), Ok(()));
    }
    assert_eq!(db.count(), 50);
}

#[test]
fn large_dimension() {
    let mut db = VectorDB::new(5000);
    assert_eq!(db.dimension(), 5000);
    assert_eq!(db.count(), 0);
    let mut v = vec![0i32; 5000];
    v[4999] = 3;
    db.insert(s("big"), v, vec![]).unwrap();
    let hits = db.search(&vec![0i32; 5000], 1).unwrap();
    assert_eq!(hits, vec![(s("big"), 9u128)]);
}

#[test]
fn duplicate_id_reported_for_stored_id() {
    let mut db = VectorDB::new(2);
    db.insert(s("dup"), vec![1, 1], b"x".to_vec()).unwrap();
    assert_eq!(db.insert(s("dup"), vec![1, 1], b"y".to_vec()), Err(DbError::DuplicateId));
    assert_eq!(db.get(&s("dup")), Some(b"x".to_vec()));
}

#[test]
fn close_hands_back_each_entry_once() {
    let mut db = VectorDB::new(1);
    db.insert(s("a"), vec![1], b"A".to_vec()).unwrap();
    db.insert(s("b"), vec![2], b"B".to_vec()).unwrap();
    db.insert(s("c"), vec![3], b"C".to_vec()).unwrap();
    db.delete(&s("b")).unwrap();
    let mut out = db.close();
    out.sort();
    assert_eq!(out, vec![(s("a"), b"A".to_vec()), (s("c"), b"C".to_vec())]);
}

#[test]
fn squared_distance_values() {
    assert_eq!(squared_distance(&vec![1, 2, 3], &vec![4, 6, 3]), 25);
    assert_eq!(squared_distance(&vec![], &vec![]), 0);
    let far = squared_distance(&vec![i32::MIN, i32::MIN], &vec![i32::MAX, i32::MAX]);
    assert_eq!(far, 2 * (u32::MAX as u128) * (u32::MAX as u128));
}

#[test]
fn index_errors() {
    let mut ix = VectorIndex::new(2);
    assert_eq!(ix.insert(s("a"), vec![1]), Err(IndexError::DimensionMismatch));
    assert_eq!(ix.insert(s("a"), vec![1, 1]), Ok(()));
    assert_eq!(ix.insert(s("a"), vec![2, 2]), Err(IndexError::DuplicateId));
    assert_eq!(ix.remove(&s("b")), Err(IndexError::NotFound));
    assert_eq!(ix.find(&s("a")), Some(0));
    assert_eq!(ix.remove(&s("a")), Ok(()));
    assert_eq!(ix.len(), 0);
}

#[test]
fn store_put_replaces() {
    let mut st = MetadataStore::new();
    st.put(s("k"), b"1".to_vec());
    st.put(s("k"), b"2".to_vec());
    assert_eq!(st.len(), 1);
    assert_eq!(st.get(&s("k")), Some(b"2".to_vec()));
    assert_eq!(st.delete(&s("k")), Ok(()));
    assert_eq!(st.delete(&s("k")), Err(StoreError::NotFound));
    assert_eq!(st.to_entries(), vec![]);
}

#[test]
fn id_length_limit() {
    let mut db = VectorDB::new(1);
    let longest = "é".repeat(MAX_ID_LEN);
    assert_eq!(db.insert(longest, vec![1], vec![]), Ok(()));
    let too_long = "x".repeat(MAX_ID_LEN + 1);
    assert_eq!(db.insert(too_long, vec![1], vec![]), Err(DbError::ValidationError));
    assert_eq!(db.count(), 1);
}

#[test]
fn request_k_values() {
    assert_eq!(request_k(None), Ok(DEFAULT_K));
    assert_eq!(request_k(None), Ok(10));
    assert_eq!(request_k(Some(1)), Ok(1));
    assert_eq!(request_k(Some(100)), Ok(100));
    assert_eq!(request_k(Some(0)), Err(DbError::ValidationError));
    assert_eq!(request_k(Some(101)), Err(DbError::ValidationError));
}

#[test]
fn dimension_mismatch_checked_before_id() {
    let mut db = VectorDB::new(2);
    assert_eq!(db.insert(s(""), vec![1], vec![]), Err(DbError::DimensionMismatch));
}
