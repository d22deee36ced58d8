use mergestore::merge::{rocks_cat, sled_cat, Concat, MergeOperator};

#[test]
fn sled_cat_without_old_value() {
    assert_eq!(sled_cat(b"k", None, &[1, 2]), Some(vec![1, 2]));
}

#[test]
fn sled_cat_appends() {
    assert_eq!(sled_cat(b"k", Some(&[9, 8]), &[1, 2]), Some(vec![9, 8, 1, 2]));
    assert_eq!(sled_cat(b"k", Some(&[9]), &[]), Some(vec![9]));
}

#[test]
fn rocks_cat_appends_all_operands() {
    let ops = vec![vec![1], vec![], vec![2, 3]];
    assert_eq!(rocks_cat(b"k", Some(&[0]), &ops), Some(vec![0, 1, 2, 3]));
    assert_eq!(rocks_cat(b"k", None, &ops), Some(vec![1, 2, 3]));
    assert_eq!(rocks_cat(b"k", None, &vec![]), Some(vec![]));
}

#[test]
fn one_batch_equals_merges_one_by_one() {
    let frags = vec![vec![1, 2], vec![3], vec![4, 5, 6]];
    let mut acc: Option<Vec<u8>> = None;
    for f in &frags {
        acc = sled_cat(b"k", acc.as_deref(), f);
    }
    assert_eq!(acc, rocks_cat(b"k", None, &frags));
}

#[test]
fn concat_operator_combines() {
    assert_eq!(Concat.combine(b"k", Some(&[1]), &[2]), Some(vec![1, 2]));
    assert_eq!(Concat.combine(b"k", None, &[2]), Some(vec![2]));
}
