use chunked_cmp::column::{Int64Chunked, Utf8Chunked};
use chunked_cmp::compare::{broadcast, compare, compare_scalar, compare_utf8, BoundedToUtf8, CmpOps};
use chunked_cmp::ops::{CmpError, CmpOp};

fn num(chunks: Vec<Vec<i64>>) -> Int64Chunked {
    Int64Chunked::new_from_chunks("a", chunks)
}

fn text(values: Vec<&str>) -> Utf8Chunked {
    Utf8Chunked::new_utf8_from_slice("a", &values)
}

const ALL_OPS: [CmpOp; 6] = [
    CmpOp::Equal,
    CmpOp::NotEqual,
    CmpOp::Greater,
    CmpOp::GreaterOrEqual,
    CmpOp::Less,
    CmpOp::LessOrEqual,
];

#[test]
fn utf8_cmp() {
    let a = Utf8Chunked::new_utf8_from_slice("a", &vec!["hello", "world"]);
    let b = Utf8Chunked::new_utf8_from_slice("a", &vec!["hello", "world"]);
    let sum_true = a
        .eq(&b)
        .unwrap()
        .to_vec()
        .iter()
        .fold(0, |acc, v| acc + *v as i32);

    assert_eq!(2, sum_true)
}

#[test]
fn eq_self_all_true_numeric() {
    let a = num(vec![vec![5], vec![6, 7]]);
    let mask = a.eq(&a).unwrap().to_vec();
    assert_eq!(mask, vec![true, true, true]);
}

#[test]
fn eq_self_all_true_utf8() {
    let a = text(vec!["pear", "", "fig"]);
    let mask = a.eq(&a).unwrap().to_vec();
    assert_eq!(mask, vec![true, true, true]);
}

#[test]
fn chunking_invariance() {
    let a = num(vec![vec![1], vec![2, 3]]);
    let b = num(vec![vec![1, 2], vec![3]]);
    let mask = compare(CmpOp::Equal, &a, &b).unwrap().to_vec();
    assert_eq!(mask, vec![true, true, true]);
    for op in ALL_OPS {
        let single_a = num(vec![vec![1, 2, 3]]);
        let single_b = num(vec![vec![3, 2, 1]]);
        let rechunked_a = num(vec![vec![1], vec![2], vec![3]]);
        let rechunked_b = num(vec![vec![3, 2], vec![1]]);
        assert_eq!(
            compare(op, &single_a, &single_b).unwrap().to_vec(),
            compare(op, &rechunked_a, &rechunked_b).unwrap().to_vec()
        );
    }
}

#[test]
fn chunking_invariance_utf8() {
    for op in ALL_OPS {
        let single_a = text(vec!["ab", "cd", "e"]);
        let single_b = text(vec!["abc", "cd", "a"]);
        let chunked_a = Utf8Chunked::new_from_chunks(
            "a",
            vec![
                vec!["ab".to_string()],
                vec!["cd".to_string(), "e".to_string()],
            ],
        );
        let chunked_b = Utf8Chunked::new_from_chunks(
            "a",
            vec![
                vec!["abc".to_string(), "cd".to_string()],
                vec!["a".to_string()],
            ],
        );
        assert_eq!(
            compare_utf8(op, &single_a, &single_b).unwrap().to_vec(),
            compare_utf8(op, &chunked_a, &chunked_b).unwrap().to_vec()
        );
    }
}

#[test]
fn neq_is_complement_of_eq() {
    let a = num(vec![vec![1, 2], vec![3]]);
    let b = num(vec![vec![1, 5, 3]]);
    let eq_mask = a.eq(&b).unwrap().to_vec();
    let neq_mask = a.neq(&b).unwrap().to_vec();
    assert_eq!(eq_mask, vec![true, false, true]);
    assert_eq!(
        neq_mask,
        eq_mask.iter().map(|v| !v).collect::<Vec<bool>>()
    );
}

#[test]
fn numeric_ops_exact_values() {
    let a = num(vec![vec![1, 2, 3]]);
    let b = num(vec![vec![3, 2, 1]]);
    assert_eq!(a.eq(&b).unwrap().to_vec(), vec![false, true, false]);
    assert_eq!(a.neq(&b).unwrap().to_vec(), vec![true, false, true]);
    assert_eq!(a.gt(&b).unwrap().to_vec(), vec![false, false, true]);
    assert_eq!(a.gt_eq(&b).unwrap().to_vec(), vec![false, true, true]);
    assert_eq!(a.lt(&b).unwrap().to_vec(), vec![true, false, false]);
    assert_eq!(a.lt_eq(&b).unwrap().to_vec(), vec![true, true, false]);
}

#[test]
fn utf8_ops_exact_values() {
    let a = text(vec!["apple", "pear", "ab"]);
    let b = text(vec!["banana", "pear", "abc"]);
    assert_eq!(a.eq(&b).unwrap().to_vec(), vec![false, true, false]);
    assert_eq!(a.neq(&b).unwrap().to_vec(), vec![true, false, true]);
    assert_eq!(a.gt(&b).unwrap().to_vec(), vec![false, false, false]);
    assert_eq!(a.gt_eq(&b).unwrap().to_vec(), vec![false, true, false]);
    assert_eq!(a.lt(&b).unwrap().to_vec(), vec![true, false, true]);
    assert_eq!(a.lt_eq(&b).unwrap().to_vec(), vec![true, true, true]);
}

#[test]
fn order_duality() {
    let a = num(vec![vec![1, 7], vec![4]]);
    let b = num(vec![vec![2, 7, 3]]);
    let gt = a.gt(&b).unwrap().to_vec();
    let lt_flipped = b.lt(&a).unwrap().to_vec();
    assert_eq!(gt, lt_flipped);
    let eq_mask = a.eq(&b).unwrap().to_vec();
    let ge = a.gt_eq(&b).unwrap().to_vec();
    let lt = a.lt(&b).unwrap().to_vec();
    let le = a.lt_eq(&b).unwrap().to_vec();
    for i in 0..3 {
        assert_eq!(ge[i], gt[i] || eq_mask[i]);
        assert_eq!(le[i], lt[i] || eq_mask[i]);
    }
}

#[test]
fn order_duality_utf8() {
    let a = text(vec!["ab", "zz", "m"]);
    let b = text(vec!["abc", "zz", "a"]);
    let gt = a.gt(&b).unwrap().to_vec();
    let lt_flipped = compare_utf8(CmpOp::Less, &b, &a).unwrap().to_vec();
    assert_eq!(gt, lt_flipped);
    let eq_mask = a.eq(&b).unwrap().to_vec();
    let ge = a.gt_eq(&b).unwrap().to_vec();
    let lt = a.lt(&b).unwrap().to_vec();
    let le = a.lt_eq(&b).unwrap().to_vec();
    for i in 0..3 {
        assert_eq!(ge[i], gt[i] || eq_mask[i]);
        assert_eq!(le[i], lt[i] || eq_mask[i]);
    }
}

#[test]
fn gt_scalar_exact_values() {
    let a = num(vec![vec![1, 2, 3]]);
    let mask = a.gt(2).unwrap().to_vec();
    assert_eq!(mask, vec![false, false, true]);
}

#[test]
fn scalar_matches_broadcast() {
    let a = num(vec![vec![9, -4], vec![2]]);
    for op in ALL_OPS {
        let scalar_mask = compare_scalar(op, &a, 2).unwrap().to_vec();
        let broadcast_col = broadcast(2, a.len());
        let column_mask = compare(op, &a, &broadcast_col).unwrap().to_vec();
        assert_eq!(scalar_mask, column_mask);
    }
}

#[test]
fn length_mismatch_numeric() {
    let a = num(vec![vec![1, 2]]);
    let b = num(vec![vec![1, 2, 3]]);
    for op in ALL_OPS {
        assert_eq!(compare(op, &a, &b).unwrap_err(), CmpError::LengthMismatch);
    }
    assert!(a.align(&b).is_err());
}

#[test]
fn length_mismatch_utf8() {
    let a = text(vec!["x"]);
    let b = text(vec!["x", "y"]);
    assert_eq!(a.eq(&b).unwrap_err(), CmpError::LengthMismatch);
}

#[test]
fn scalar_cast_failure() {
    let too_big: i64 = (i32::MAX as i64) + 1;
    let a = num(vec![vec![1], vec![too_big, 2]]);
    for op in ALL_OPS {
        assert_eq!(
            compare_scalar(op, &a, 7).unwrap_err(),
            CmpError::DataTypeMismatch
        );
    }
}

#[test]
fn align_rechunks_left_to_right_layout() {
    let a = num(vec![vec![1, 2, 3, 4]]);
    let b = num(vec![vec![1], vec![2, 3], vec![4]]);
    let aligned = a.align(&b).unwrap().unwrap();
    assert_eq!(aligned.chunks.len(), 3);
    assert_eq!(aligned.chunks[0], vec![1]);
    assert_eq!(aligned.chunks[1], vec![2, 3]);
    assert_eq!(aligned.chunks[2], vec![4]);
    // matching boundaries are kept as they are
    assert!(b.align(&b).unwrap().is_none());
}

#[test]
fn bounded_to_utf8_borrows_the_column() {
    let a = text(vec!["q"]);
    let borrowed = a.as_utf8();
    assert_eq!(borrowed.len(), 1);
}

#[test]
fn empty_columns_compare_empty() {
    let a = num(vec![]);
    let b = num(vec![vec![]]);
    let mask = compare(CmpOp::Equal, &a, &b).unwrap().to_vec();
    assert_eq!(mask, Vec::<bool>::new());
}
