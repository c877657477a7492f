use columnar_ipc::topk::{
    first_n_valid_mask, top_k, top_k_bool_impl, top_k_by, top_k_num_impl, Column, IsSorted,
    TopKError,
};

fn k_col(k: i64) -> Column {
    Column::Int64 { name: "k".into(), values: vec![Some(k)], sorted: IsSorted::Not }
}

fn int_col(name: &str, values: Vec<Option<i64>>, sorted: IsSorted) -> Column {
    Column::Int64 { name: name.into(), values, sorted }
}

#[test]
fn mask_only_when_something_is_invalid() {
    assert_eq!(first_n_valid_mask(2, 4), Some(vec![true, true, false, false]));
    assert_eq!(first_n_valid_mask(4, 4), None);
    assert_eq!(first_n_valid_mask(5, 4), None);
}

#[test]
fn bool_selection_counts_runs() {
    let v = vec![Some(true), None, Some(false), Some(true), None];
    // top: trues first, then falses, then nulls
    assert_eq!(
        top_k_bool_impl(&v, 4, false),
        vec![Some(true), Some(true), Some(false), None]
    );
    // descending: falses first
    assert_eq!(
        top_k_bool_impl(&v, 4, true),
        vec![Some(false), Some(true), Some(true), None]
    );
    // nothing cut: the input passes through
    let w = vec![Some(true), Some(false)];
    assert_eq!(top_k_bool_impl(&w, 9, false), w);
}

#[test]
fn num_selection_orders_survivors() {
    let v = vec![Some(5), None, Some(1), Some(9)];
    assert_eq!(top_k_num_impl(&v, 2, false), vec![Some(9), Some(5)]);
    assert_eq!(top_k_num_impl(&v, 2, true), vec![Some(1), Some(5)]);
    // padding nulls appear once the valid values run out
    assert_eq!(top_k_num_impl(&v, 4, false), vec![Some(9), Some(5), Some(1), None]);
}

#[test]
fn top_k_dispatches_and_validates_k() {
    let src = int_col("x", vec![Some(3), Some(1), Some(2)], IsSorted::Not);
    let out = top_k(&vec![src, k_col(2)], false).unwrap();
    match out {
        Column::Int64 { values, .. } => assert_eq!(values, vec![Some(3), Some(2)]),
        _ => panic!("wrong type"),
    }

    let src = int_col("x", vec![Some(3)], IsSorted::Not);
    let bad_k = Column::Int64 {
        name: "k".into(),
        values: vec![Some(1), Some(2)],
        sorted: IsSorted::Not,
    };
    assert_eq!(top_k(&vec![src, bad_k], false).unwrap_err(), TopKError::KNotSingle { len: 2 });

    let src = int_col("x", vec![Some(3)], IsSorted::Not);
    let null_k = Column::Int64 { name: "k".into(), values: vec![None], sorted: IsSorted::Not };
    assert_eq!(top_k(&vec![src, null_k], false).unwrap_err(), TopKError::KNotSet);

    let src = int_col("x", vec![Some(3)], IsSorted::Not);
    assert_eq!(
        top_k(&vec![src, k_col(-4)], false).unwrap_err(),
        TopKError::KInvalid { value: -4 }
    );
}

#[test]
fn sorted_input_is_sliced_not_recomputed() {
    // ascending with nulls at the front; the top two live at the end
    let src = int_col(
        "x",
        vec![None, Some(1), Some(2), Some(3)],
        IsSorted::Ascending,
    );
    let out = top_k(&vec![src, k_col(2)], false).unwrap();
    match out {
        Column::Int64 { values, sorted, .. } => {
            assert_eq!(values, vec![Some(2), Some(3)]);
            assert_eq!(sorted, IsSorted::Ascending);
        },
        _ => panic!("wrong type"),
    }
    // descending request slices from the start, shifted past the nulls
    let src = int_col(
        "x",
        vec![None, Some(1), Some(2), Some(3)],
        IsSorted::Ascending,
    );
    let out = top_k(&vec![src, k_col(2)], true).unwrap();
    match out {
        Column::Int64 { values, .. } => assert_eq!(values, vec![Some(1), Some(2)]),
        _ => panic!("wrong type"),
    }
}

#[test]
fn binary_selection_orders_keys() {
    let src = Column::Binary {
        name: "x".into(),
        values: vec![Some(b"b".to_vec()), None, Some(b"ab".to_vec()), Some(b"c".to_vec())],
        sorted: IsSorted::Not,
    };
    let out = top_k(&vec![src, k_col(2)], false).unwrap();
    match out {
        Column::Binary { values, .. } => {
            assert_eq!(values, vec![Some(b"c".to_vec()), Some(b"b".to_vec())])
        },
        _ => panic!("wrong type"),
    }
}

#[test]
fn null_column_truncates() {
    let src = Column::Null { name: "x".into(), len: 5 };
    let out = top_k(&vec![src, k_col(3)], false).unwrap();
    assert_eq!(out, Column::Null { name: "x".into(), len: 3 });
}

#[test]
fn top_k_by_selects_rows_by_keys() {
    let src = int_col("x", vec![Some(10), Some(20), Some(30)], IsSorted::Not);
    let by = int_col("key", vec![Some(2), Some(9), Some(5)], IsSorted::Not);
    let out = top_k_by(&vec![src, k_col(2), by], vec![false]).unwrap();
    match out {
        Column::Int64 { values, .. } => assert_eq!(values, vec![Some(20), Some(30)]),
        _ => panic!("wrong type"),
    }
}

#[test]
fn top_k_by_stable_on_ties() {
    let src = int_col("x", vec![Some(10), Some(20), Some(30)], IsSorted::Not);
    let by = int_col("key", vec![Some(5), Some(5), Some(1)], IsSorted::Not);
    let out = top_k_by(&vec![src, k_col(2), by], vec![false]).unwrap();
    match out {
        Column::Int64 { values, .. } => assert_eq!(values, vec![Some(10), Some(20)]),
        _ => panic!("wrong type"),
    }
}

#[test]
fn top_k_by_validates_lengths() {
    let src = int_col("x", vec![Some(10), Some(20)], IsSorted::Not);
    let by = int_col("key", vec![Some(1)], IsSorted::Not);
    let err = top_k_by(&vec![src, k_col(1), by], vec![false]).unwrap_err();
    assert_eq!(
        err,
        TopKError::ByLengthMismatch { name: "key".into(), by_len: 1, src_len: 2 }
    );
}

#[test]
fn top_k_by_empty_cases_pass_through() {
    let src = int_col("x", vec![], IsSorted::Not);
    let by = int_col("key", vec![], IsSorted::Not);
    let out = top_k_by(&vec![src, k_col(2), by], vec![false]).unwrap();
    assert_eq!(out, int_col("x", vec![], IsSorted::Not));
}

#[test]
fn binary_k_column_is_not_numeric() {
    let src = int_col("x", vec![Some(1)], IsSorted::Not);
    let bin_k = Column::Binary {
        name: "k".into(),
        values: vec![Some(b"2".to_vec())],
        sorted: IsSorted::Not,
    };
    assert_eq!(top_k(&vec![src, bin_k], false).unwrap_err(), TopKError::KNotNumeric);
}
