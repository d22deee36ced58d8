use mergestore::codec::{decode_all, encode_u32, sum_u64};
use mergestore::error::StoreError;
use mergestore::merge::Concat;
use mergestore::store::{Config, Store};
use mergestore::workload::{decode_values, fill};

fn config() -> Config {
    Config { compression: true, cache_bytes: 1_000_000_000, flush_interval_ms: Some(200) }
}

fn open_store() -> Store<Concat> {
    let mut s = Store::open("./data".to_string(), config()).unwrap();
    s.set_merge_operator("concat".to_string(), Concat);
    s
}

#[test]
fn open_empty_path_is_unavailable() {
    assert!(matches!(Store::<Concat>::open(String::new(), config()), Err(StoreError::PathUnavailable)));
}

#[test]
fn put_then_get() {
    let mut s = open_store();
    assert_eq!(s.put(b"a", b"one"), Ok(()));
    assert_eq!(s.get(b"a"), Ok(Some(b"one".to_vec())));
    assert_eq!(s.put(b"a", b"two"), Ok(()));
    assert_eq!(s.get(b"a"), Ok(Some(b"two".to_vec())));
    assert_eq!(s.get(b"b"), Ok(None));
}

#[test]
fn merge_without_operator_fails() {
    let mut s: Store<Concat> = Store::open("p".to_string(), config()).unwrap();
    assert_eq!(s.merge(b"k", &[1]), Err(StoreError::NoMergeOperator));
    assert_eq!(s.get(b"k"), Ok(None));
}

#[test]
fn merge_on_absent_key_stores_fragment() {
    let mut s = open_store();
    assert_eq!(s.merge(b"k", &[4, 5]), Ok(()));
    assert_eq!(s.get(b"k"), Ok(Some(vec![4, 5])));
}

#[test]
fn merges_concatenate_in_call_order() {
    let mut s = open_store();
    let frags: Vec<Vec<u8>> = vec![vec![1], vec![2, 3], vec![], vec![4]];
    for f in &frags {
        s.merge(b"k", f).unwrap();
    }
    assert_eq!(s.get(b"k"), Ok(Some(frags.concat())));
}

#[test]
fn merge_after_put_appends() {
    let mut s = open_store();
    s.put(b"k", &[9]).unwrap();
    s.merge(b"k", &[1]).unwrap();
    assert_eq!(s.get(b"k"), Ok(Some(vec![9, 1])));
}

#[test]
fn each_order_of_merges_keeps_every_fragment_once() {
    let frags: Vec<Vec<u8>> = vec![vec![1, 1], vec![2], vec![3, 3, 3]];
    for order in [[0, 1, 2], [2, 0, 1], [1, 2, 0]] {
        let mut s = open_store();
        for &i in &order {
            s.merge(b"k", &frags[i]).unwrap();
        }
        let expected: Vec<u8> = order.iter().flat_map(|&i| frags[i].clone()).collect();
        let got = s.get(b"k").unwrap().unwrap();
        assert_eq!(got, expected);
        assert_eq!(got.len(), 6);
    }
}

#[test]
fn ten_merges_decode_to_run() {
    let mut s = open_store();
    let key = encode_u32(0);
    for j in 0..10u32 {
        s.merge(&key, &encode_u32(j)).unwrap();
    }
    let ns = decode_all(&s.get(&key).unwrap().unwrap()).unwrap();
    assert_eq!(ns, vec![0, 1, 2, 3, 4, 5, 6, 7, 8, 9]);
    assert_eq!(sum_u64(&ns), Some(45));
}

#[test]
fn flush_then_reopen_recovers() {
    let mut s = open_store();
    s.put(b"a", &[1]).unwrap();
    s.merge(b"b", &[2]).unwrap();
    s.flush().unwrap();
    let r = s.reopen();
    assert!(r.is_open());
    assert!(!r.has_merge_operator());
    assert_eq!(r.get(b"a"), Ok(Some(vec![1])));
    assert_eq!(r.get(b"b"), Ok(Some(vec![2])));
}

#[test]
fn writes_after_flush_may_be_lost() {
    let mut s = open_store();
    s.put(b"a", &[1]).unwrap();
    s.flush().unwrap();
    s.put(b"a", &[2]).unwrap();
    s.put(b"c", &[3]).unwrap();
    let r = s.reopen();
    assert_eq!(r.get(b"a"), Ok(Some(vec![1])));
    assert_eq!(r.get(b"c"), Ok(None));
}

#[test]
fn closed_store_refuses_work() {
    let mut s = open_store();
    s.put(b"a", &[1]).unwrap();
    assert_eq!(s.close(), Ok(()));
    assert_eq!(s.close(), Ok(()));
    assert!(!s.is_open());
    assert_eq!(s.put(b"a", &[2]), Err(StoreError::StoreClosed));
    assert_eq!(s.merge(b"a", &[2]), Err(StoreError::StoreClosed));
    assert_eq!(s.get(b"a"), Err(StoreError::StoreClosed));
    assert_eq!(s.delete(b"a"), Err(StoreError::StoreClosed));
    assert_eq!(s.flush(), Err(StoreError::StoreClosed));
    let r = s.reopen();
    assert_eq!(r.get(b"a"), Ok(Some(vec![1])));
}

#[test]
fn delete_removes_key() {
    let mut s = open_store();
    s.put(b"a", &[1]).unwrap();
    s.put(b"b", &[2]).unwrap();
    assert_eq!(s.delete(b"a"), Ok(()));
    assert_eq!(s.get(b"a"), Ok(None));
    assert_eq!(s.get(b"b"), Ok(Some(vec![2])));
    assert_eq!(s.delete(b"zz"), Ok(()));
}

#[test]
fn scan_lists_each_key_once_in_stable_order() {
    let mut s = open_store();
    s.merge(b"x", &[1]).unwrap();
    s.merge(b"y", &[2]).unwrap();
    s.merge(b"x", &[3]).unwrap();
    let first = s.scan();
    assert_eq!(first, vec![(b"x".to_vec(), vec![1, 3]), (b"y".to_vec(), vec![2])]);
    assert_eq!(s.scan(), first);
}

#[test]
fn fill_and_sum() {
    let mut s = open_store();
    assert_eq!(fill(&mut s, 100, 10), Ok(()));
    let pairs = s.scan();
    assert_eq!(pairs.len(), 100);
    let ns = decode_values(&pairs).unwrap();
    assert_eq!(ns.len(), 1000);
    assert_eq!(sum_u64(&ns), Some(4500));
    assert_eq!(decode_all(&s.get(&encode_u32(42)).unwrap().unwrap()), Ok((0..10).collect()));
}

#[test]
fn fill_without_operator_fails() {
    let mut s: Store<Concat> = Store::open("p".to_string(), config()).unwrap();
    assert_eq!(fill(&mut s, 3, 2), Err(StoreError::NoMergeOperator));
    assert_eq!(fill(&mut s, 0, 2), Ok(()));
    assert_eq!(s.scan(), vec![]);
}

#[test]
fn decode_values_rejects_ragged_value() {
    let pairs = vec![(vec![0], vec![1, 0, 0, 0]), (vec![1], vec![1, 2])];
    assert_eq!(decode_values(&pairs), Err(StoreError::MalformedValue));
    let good = vec![(vec![0], encode_u32(3)), (vec![1], vec![])];
    assert_eq!(decode_values(&good), Ok(vec![3]));
}

#[test]
fn getters_report_how_the_store_was_opened() {
    let mut s: Store<Concat> = Store::open("./data".to_string(), config()).unwrap();
    assert_eq!(s.path(), "./data");
    assert_eq!(s.config(), config());
    assert_eq!(s.merge_operator_name(), None);
    s.set_merge_operator("concat".to_string(), Concat);
    assert_eq!(s.merge_operator_name(), Some(&"concat".to_string()));
    let r = s.reopen();
    assert_eq!(r.path(), "./data");
    assert_eq!(r.config(), config());
    assert_eq!(r.merge_operator_name(), None);
}

#[test]
fn key_deleted_and_written_again_moves_to_the_end() {
    let mut s = open_store();
    s.put(b"a", &[1]).unwrap();
    s.put(b"b", &[2]).unwrap();
    s.delete(b"a").unwrap();
    s.put(b"a", &[3]).unwrap();
    assert_eq!(s.scan(), vec![(b"b".to_vec(), vec![2]), (b"a".to_vec(), vec![3])]);
}
