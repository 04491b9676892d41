use connectorx_core::buffer::LockState;
use connectorx_core::errors::ConnectorXPythonError;
use connectorx_core::string::StringColumn;
use connectorx_core::int64::{Int64Block, Int64Column};

fn e1_int() -> Vec<i64> {
    vec![1, 2, 0, 3, 4, 1314]
}

fn e1_nullint() -> Vec<Option<i64>> {
    vec![Some(3), None, Some(5), Some(7), Some(9), Some(2)]
}

fn e1_str() -> Vec<Option<&'static str>> {
    vec![Some("str1"), Some("str2"), Some("a"), Some("b"), Some("c"), None]
}

fn read_strings(col: &StringColumn) -> Vec<Option<String>> {
    (0..col.len()).map(|k| col.get(k).map(|b| String::from_utf8(b).unwrap())).collect()
}

fn read_all(col: &Int64Column) -> Vec<Option<i64>> {
    (0..col.len()).map(|k| col.get(k)).collect()
}

#[test]
fn single_partition_keeps_values_and_nulls() {
    let mut ints = Int64Column::new(6, false);
    let mut nullints = Int64Column::new(6, true);
    let mut strs = StringColumn::new(6, 1 << 22);
    for ((a, b), c) in e1_int().into_iter().zip(e1_nullint()).zip(e1_str()) {
        ints.write(a);
        nullints.write_opt(b).unwrap();
        strs.write_opt(c, LockState::Free).unwrap();
    }
    assert_eq!(ints.finalize(), Ok(()));
    assert_eq!(nullints.finalize(), Ok(()));
    assert_eq!(strs.finalize(LockState::Free), Ok(()));
    let expected_strs: Vec<Option<String>> = e1_str().into_iter().map(|s| s.map(String::from)).collect();
    assert_eq!(read_strings(&strs), expected_strs);
    let expected: Vec<Option<i64>> = e1_int().into_iter().map(Some).collect();
    assert_eq!(read_all(&ints), expected);
    assert_eq!(read_all(&nullints), e1_nullint());
}

#[test]
fn two_partitions_hold_the_same_rows() {
    // shard one: test_int < 2, shard two: test_int >= 2
    let shard_one = vec![(1i64, Some(3i64), Some("str1")), (0, Some(5), Some("a"))];
    let shard_two = vec![
        (2i64, None, Some("str2")),
        (3, Some(7), Some("b")),
        (4, Some(9), Some("c")),
        (1314, Some(2), None),
    ];
    let ints = Int64Column::new(6, false).partition(&[2, 4]);
    let nulls = Int64Column::new(6, true).partition(&[2, 4]);
    let strs = StringColumn::new(6, 1 << 22).partition(&[2, 4]);
    assert_eq!(ints.len(), 2);
    assert_eq!(nulls.len(), 2);
    assert_eq!(strs.len(), 2);
    let mut rows: Vec<(Option<i64>, Option<i64>, Option<String>)> = Vec::new();
    for (((mut a, mut b), mut c), shard) in
        ints.into_iter().zip(nulls).zip(strs).zip([shard_one, shard_two])
    {
        assert_eq!(a.len(), shard.len());
        assert_eq!(c.len(), shard.len());
        for (x, y, z) in shard.iter() {
            a.write(*x);
            b.write_opt(*y).unwrap();
            c.write_opt(*z, LockState::Free).unwrap();
        }
        assert_eq!(a.finalize(), Ok(()));
        assert_eq!(b.finalize(), Ok(()));
        assert_eq!(c.finalize(LockState::Free), Ok(()));
        let va = read_all(&a);
        let vb = read_all(&b);
        let vc = read_strings(&c);
        assert_eq!(va, shard.iter().map(|r| Some(r.0)).collect::<Vec<_>>());
        for ((x, y), z) in va.into_iter().zip(vb).zip(vc) {
            rows.push((x, y, z));
        }
    }
    let mut whole: Vec<(Option<i64>, Option<i64>, Option<String>)> = e1_int()
        .into_iter()
        .zip(e1_nullint())
        .zip(e1_str())
        .map(|((x, y), z)| (Some(x), y, z.map(String::from)))
        .collect();
    rows.sort();
    whole.sort();
    assert_eq!(rows, whole);
}

#[test]
fn absent_value_sets_mask_bit() {
    let mut col = Int64Column::new(3, true);
    col.write_opt(None).unwrap();
    col.write_opt(Some(0)).unwrap();
    col.write(-7);
    assert_eq!(read_all(&col), vec![None, Some(0), Some(-7)]);
}

#[test]
fn absent_value_in_non_nullable_column_is_refused() {
    let mut col = Int64Column::new(2, false);
    assert_eq!(col.write_opt(None), Err(ConnectorXPythonError::NullInNonNullable));
    col.write_opt(Some(5)).unwrap();
    col.write(6);
    assert_eq!(read_all(&col), vec![Some(5), Some(6)]);
}

#[test]
fn finalize_before_last_row_fails() {
    let mut col = Int64Column::new(2, true);
    col.write(1);
    assert_eq!(col.finalize(), Err(ConnectorXPythonError::FinalizeIncomplete));
    col.write(2);
    assert_eq!(col.finalize(), Ok(()));
}

#[test]
fn empty_partition_finalizes_at_once() {
    let parts = Int64Column::new(3, true).partition(&[0, 3]);
    assert_eq!(parts[0].len(), 0);
    assert_eq!(parts[0].finalize(), Ok(()));
    assert_eq!(parts[1].len(), 3);
}

#[test]
fn partition_splits_existing_buffers_in_order() {
    let col = Int64Column::from_parts(vec![10, 20, 30, 40, 50], Some(vec![false, true, false, false, true])).unwrap();
    let parts = col.partition(&[1, 3, 1]);
    assert_eq!(parts.len(), 3);
    let seen: Vec<Option<i64>> = parts.iter().flat_map(|p| read_all(p)).collect();
    assert_eq!(seen, vec![Some(10), None, Some(30), Some(40), None]);
    assert!(parts.iter().all(|p| p.is_nullable()));
}

#[test]
fn partition_may_leave_trailing_rows() {
    let parts = Int64Column::new(5, false).partition(&[2]);
    assert_eq!(parts.len(), 1);
    assert_eq!(parts[0].len(), 2);
}

#[test]
fn mismatched_mask_is_refused() {
    assert!(matches!(
        Int64Column::from_parts(vec![1, 2], Some(vec![false])),
        Err(ConnectorXPythonError::ShapeMismatch)
    ));
}

#[test]
fn plain_block_splits_into_columns() {
    let cols = Int64Block::NumPy(vec![1, 2, 3, 4, 5, 6], 2, 3).split().unwrap();
    assert_eq!(cols.len(), 2);
    assert_eq!(read_all(&cols[0]), vec![Some(1), Some(2), Some(3)]);
    assert_eq!(read_all(&cols[1]), vec![Some(4), Some(5), Some(6)]);
    assert!(!cols[0].is_nullable());
}

#[test]
fn plain_block_with_wrong_shape_is_refused() {
    assert!(matches!(
        Int64Block::NumPy(vec![1, 2, 3, 4, 5], 2, 3).split(),
        Err(ConnectorXPythonError::ShapeMismatch)
    ));
}

#[test]
fn masked_block_gives_one_masked_column() {
    let cols = Int64Block::Extention(vec![7, 8], vec![true, false]).split().unwrap();
    assert_eq!(cols.len(), 1);
    assert_eq!(read_all(&cols[0]), vec![None, Some(8)]);
    assert!(matches!(
        Int64Block::Extention(vec![7, 8], vec![true]).split(),
        Err(ConnectorXPythonError::ShapeMismatch)
    ));
}
