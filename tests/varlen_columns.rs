use connectorx_core::buffer::{LockState, MIB};
use connectorx_core::bytes::{BytesBlock, BytesColumn, BYTES_BUF_SIZE_MB};
use connectorx_core::errors::ConnectorXPythonError;
use connectorx_core::string::{encode_char, StringBlock, StringColumn, STRING_BUF_SIZE_MB};

const FREE: LockState = LockState::Free;

fn strings(col: &StringColumn) -> Vec<Option<Vec<u8>>> {
    (0..col.len()).map(|k| col.get(k)).collect()
}

#[test]
fn strings_materialize_with_identical_bytes() {
    let values = ["str1", "", "\u{1F600}a", "é", "日本"];
    let mut col = StringColumn::new(values.len(), 1000);
    for v in values {
        col.write(v, FREE).unwrap();
    }
    assert_eq!(col.materialized_count(), 0);
    col.finalize(FREE).unwrap();
    let expected: Vec<Option<Vec<u8>>> = values.iter().map(|v| Some(v.as_bytes().to_vec())).collect();
    assert_eq!(strings(&col), expected);
    assert_eq!(strings(&col)[2].as_ref().unwrap().len(), 5);
}

#[test]
fn chars_are_encoded_as_utf8() {
    for c in ['a', '\u{7f}', '\u{80}', 'é', '\u{7ff}', '\u{800}', '€', '\u{ffff}', '\u{10000}', '\u{1F600}', '\u{10FFFF}'] {
        let mut b = [0u8; 4];
        assert_eq!(encode_char(c), c.encode_utf8(&mut b).as_bytes().to_vec());
    }
    let mut col = StringColumn::new(2, 1000);
    col.write_char('\u{1F600}', FREE).unwrap();
    col.write_char('z', FREE).unwrap();
    col.finalize(FREE).unwrap();
    assert_eq!(strings(&col), vec![Some("\u{1F600}".as_bytes().to_vec()), Some(b"z".to_vec())]);
}

#[test]
fn absent_and_empty_values_differ() {
    let mut col = StringColumn::new(3, 1000);
    col.write_opt(None, FREE).unwrap();
    col.write("", FREE).unwrap();
    col.write_opt(Some("x"), FREE).unwrap();
    assert_eq!(col.buffered_bytes(), 1);
    col.finalize(FREE).unwrap();
    assert_eq!(strings(&col), vec![None, Some(vec![]), Some(b"x".to_vec())]);
}

#[test]
fn second_forced_flush_writes_nothing() {
    let mut col = StringColumn::new(4, 1000);
    col.write("ab", FREE).unwrap();
    col.write_opt(None, FREE).unwrap();
    col.flush(true, FREE).unwrap();
    assert_eq!(col.materialized_count(), 2);
    assert_eq!(col.pending_count(), 0);
    col.flush(true, FREE).unwrap();
    assert_eq!(col.materialized_count(), 2);
    assert_eq!(col.pending_count(), 0);
    assert_eq!(strings(&col)[..2].to_vec(), vec![Some(b"ab".to_vec()), None]);
}

#[test]
fn zero_threshold_flushes_every_write_with_the_same_result() {
    let values = [Some("a"), None, Some(""), Some("bcd")];
    let mut eager = StringColumn::new(4, 0);
    let mut batched = StringColumn::new(4, 1 << 20);
    for (k, v) in values.iter().enumerate() {
        eager.write_opt(*v, FREE).unwrap();
        batched.write_opt(*v, FREE).unwrap();
        assert_eq!(eager.materialized_count(), k + 1);
        assert_eq!(eager.pending_count(), 0);
    }
    assert_eq!(batched.materialized_count(), 0);
    eager.finalize(FREE).unwrap();
    batched.finalize(FREE).unwrap();
    assert_eq!(strings(&eager), strings(&batched));
}

#[test]
fn value_of_exactly_threshold_length_is_flushed() {
    let mut col = StringColumn::new(2, 4);
    col.write("abc", FREE).unwrap();
    assert_eq!(col.pending_count(), 1);
    col.write("d", FREE).unwrap();
    assert_eq!(col.pending_count(), 0);
    let mut other = StringColumn::new(1, 4);
    other.write("wxyz", FREE).unwrap();
    assert_eq!(other.materialized_count(), 1);
    assert_eq!(other.buffered_bytes(), 0);
}

#[test]
fn one_forced_flush_at_the_crossing_write() {
    let mut cols = StringBlock::new(1, 1000).split();
    assert_eq!(cols.len(), 1);
    let mut col = cols.remove(0);
    let payload = "x".repeat(4700);
    let mut flushes = 0;
    let mut total = 0usize;
    for k in 0..1000 {
        let before = col.materialized_count();
        if k % 10 == 3 {
            col.write_opt(None, FREE).unwrap();
        } else {
            col.write(&payload, FREE).unwrap();
            total += payload.len();
        }
        if col.materialized_count() != before {
            flushes += 1;
        }
    }
    assert!(total > STRING_BUF_SIZE_MB * MIB);
    assert_eq!(flushes, 1);
    assert!(col.pending_count() > 0);
    col.finalize(FREE).unwrap();
    assert_eq!(col.materialized_count(), 1000);
    assert_eq!(col.get(3), None);
    assert_eq!(col.get(999), Some(payload.as_bytes().to_vec()));
}

#[test]
fn empty_writer_finalizes_at_once() {
    let mut col = StringColumn::new(0, 16);
    assert_eq!(col.finalize(LockState::Poisoned), Ok(()));
    let mut b = BytesColumn::new(0, 16);
    assert_eq!(b.finalize(LockState::Poisoned), Ok(()));
}

#[test]
fn finalize_before_last_row_fails_for_strings() {
    let mut col = StringColumn::new(2, 16);
    col.write("a", FREE).unwrap();
    assert_eq!(col.finalize(FREE), Err(ConnectorXPythonError::FinalizeIncomplete));
    assert_eq!(col.materialized_count(), 1);
}

#[test]
fn poisoned_lock_fails_the_flush() {
    let mut col = StringColumn::new(2, 2);
    col.write("a", FREE).unwrap();
    assert_eq!(col.write("bc", LockState::Poisoned), Err(ConnectorXPythonError::AllocLockPoisoned));
    assert_eq!(col.pending_count(), 2);
    assert_eq!(col.flush(true, LockState::Poisoned), Err(ConnectorXPythonError::AllocLockPoisoned));
    assert_eq!(col.finalize(LockState::Poisoned), Err(ConnectorXPythonError::AllocLockPoisoned));
    assert_eq!(col.finalize(FREE), Ok(()));
}

#[test]
fn contended_lock_skips_only_an_unforced_flush() {
    let mut col = StringColumn::new(2, 100);
    col.write("a", FREE).unwrap();
    col.flush(false, LockState::Contended).unwrap();
    assert_eq!(col.pending_count(), 1);
    col.flush(true, LockState::Contended).unwrap();
    assert_eq!(col.pending_count(), 0);
    assert_eq!(col.materialized_count(), 1);
}

#[test]
fn string_partitions_inherit_the_threshold() {
    let mut parts = StringColumn::new(5, 8).partition(&[2, 3]);
    assert_eq!(parts.len(), 2);
    assert_eq!(parts[0].len(), 2);
    assert_eq!(parts[1].len(), 3);
    parts[1].write("12345678", FREE).unwrap();
    assert_eq!(parts[1].materialized_count(), 1);
    assert_eq!(parts[0].pending_count(), 0);
}

#[test]
fn blocks_split_into_one_writer_per_column() {
    let cols = StringBlock::new(3, 7).split();
    assert_eq!(cols.len(), 3);
    assert!(cols.iter().all(|c| c.len() == 7));
    let bcols = BytesBlock::new(2, 4).split();
    assert_eq!(bcols.len(), 2);
    assert!(bcols.iter().all(|c| c.len() == 4));
    assert_eq!(BYTES_BUF_SIZE_MB * MIB, 16 * 1024 * 1024);
}

#[test]
fn bytes_column_round_trip() {
    let mut col = BytesColumn::new(4, 3);
    col.write(&[0, 255], FREE).unwrap();
    assert_eq!(col.pending_count(), 1);
    col.write_opt(None, FREE).unwrap();
    col.write(&[1], FREE).unwrap();
    assert_eq!(col.pending_count(), 0);
    col.write_opt(Some(&[]), FREE).unwrap();
    col.flush(FREE).unwrap();
    col.flush(FREE).unwrap();
    assert_eq!(col.materialized_count(), 4);
    let got: Vec<Option<Vec<u8>>> = (0..4).map(|k| col.get(k)).collect();
    assert_eq!(got, vec![Some(vec![0, 255]), None, Some(vec![1]), Some(vec![])]);
    assert_eq!(col.finalize(FREE), Ok(()));
    let slots = col.into_slots();
    assert_eq!(slots[0], Some(vec![0, 255]));
}

#[test]
fn bytes_partitions_start_empty() {
    let parts = BytesColumn::new(6, 5).partition(&[1, 2, 3]);
    let lens: Vec<usize> = parts.iter().map(|p| p.len()).collect();
    assert_eq!(lens, vec![1, 2, 3]);
    assert!(parts.iter().all(|p| p.buffered_bytes() == 0 && p.materialized_count() == 0));
}

#[test]
fn optional_chars_are_encoded_or_absent() {
    let mut col = StringColumn::new(3, 1000);
    col.write_char_opt(Some('\u{10348}'), FREE).unwrap();
    col.write_char_opt(None, FREE).unwrap();
    col.write_char_opt(Some('q'), FREE).unwrap();
    assert_eq!(col.buffered_bytes(), 5);
    col.finalize(FREE).unwrap();
    assert_eq!(
        strings(&col),
        vec![Some("\u{10348}".as_bytes().to_vec()), None, Some(b"q".to_vec())]
    );
}

#[test]
fn string_partitions_keep_their_rows() {
    let mut col = StringColumn::new(4, 1);
    col.write("a", FREE).unwrap();
    col.write_opt(None, FREE).unwrap();
    col.write("cc", FREE).unwrap();
    col.write("d", FREE).unwrap();
    assert_eq!(col.materialized_count(), 4);
    let parts = col.partition(&[1, 3]);
    assert_eq!(strings(&parts[0]), vec![Some(b"a".to_vec())]);
    assert_eq!(strings(&parts[1]), vec![None, Some(b"cc".to_vec()), Some(b"d".to_vec())]);
    assert!(parts.iter().all(|p| p.materialized_count() == 0 && p.pending_count() == 0));
}

#[test]
fn bytes_partitions_keep_their_rows() {
    let mut col = BytesColumn::new(3, 0);
    col.write(&[1], FREE).unwrap();
    col.write(&[2, 3], FREE).unwrap();
    col.write_opt(None, FREE).unwrap();
    let parts = col.partition(&[2, 1]);
    let first: Vec<Option<Vec<u8>>> = (0..2).map(|k| parts[0].get(k)).collect();
    assert_eq!(first, vec![Some(vec![1]), Some(vec![2, 3])]);
    assert_eq!(parts[1].get(0), None);
    assert_eq!(parts[1].threshold_bytes(), 0);
}
