use ecg_autoencoder::batcher::BatchError;
use ecg_autoencoder::batcher::EcgBatcher;
use ecg_autoencoder::dataset::read_ecg_raw_record;
use ecg_autoencoder::dataset::EcgDataset;
use ecg_autoencoder::dataset::ReadError;
use ecg_autoencoder::dataset::SplitError;

/// One CSV row of `n` numeric fields "0", "1", ... joined by commas.
fn row(n: usize) -> String {
    let fields: Vec<String> = (0..n).map(|i| format!("{}.5", i)).collect();
    fields.join(",")
}

/// A record as the reader would produce it: `n` fields of decimal text.
fn record(n: usize) -> Vec<Vec<u8>> {
    (0..n).map(|i| format!("{}.5", i).into_bytes()).collect()
}

#[test]
fn reads_one_row_of_140_fields() {
    let text = row(140);
    let recs = read_ecg_raw_record(text.as_bytes()).unwrap();
    assert_eq!(recs.len(), 1);
    assert_eq!(recs[0].len(), 140);
    assert_eq!(recs[0][0], b"0.5".to_vec());
    assert_eq!(recs[0][139], b"139.5".to_vec());
}

#[test]
fn truncates_longer_rows_to_140() {
    let text = row(150);
    let recs = read_ecg_raw_record(text.as_bytes()).unwrap();
    assert_eq!(recs.len(), 1);
    assert_eq!(recs[0].len(), 140);
    assert_eq!(recs[0][139], b"139.5".to_vec());
}

#[test]
fn row_of_139_fields_is_an_error() {
    let text = row(139);
    let r = read_ecg_raw_record(text.as_bytes());
    assert_eq!(r.unwrap_err(), ReadError::ShortRow { row: 0 });
}

#[test]
fn non_numeric_field_is_an_error() {
    let mut text = row(139);
    text.push_str(",abc");
    let r = read_ecg_raw_record(text.as_bytes());
    assert_eq!(r.unwrap_err(), ReadError::NonNumericField { row: 0 });
}

#[test]
fn second_bad_row_is_reported() {
    let mut text = row(140);
    text.push('\n');
    text.push_str(&row(139));
    text.push_str(",abc");
    let r = read_ecg_raw_record(text.as_bytes());
    assert_eq!(r.unwrap_err(), ReadError::NonNumericField { row: 1 });
}

#[test]
fn every_row_is_a_record_none_is_a_header() {
    let mut text = row(140);
    text.push('\n');
    text.push_str(&row(140));
    text.push('\n');
    text.push_str(&row(140));
    let recs = read_ecg_raw_record(text.as_bytes()).unwrap();
    assert_eq!(recs.len(), 3);
}

#[test]
fn ragged_rows_are_malformed_input() {
    let mut text = row(140);
    text.push('\n');
    text.push_str(&row(120));
    let r = read_ecg_raw_record(text.as_bytes());
    assert_eq!(r.unwrap_err(), ReadError::MalformedInput);
}

#[test]
fn numeric_grammar_accepts_signs_exponents_and_named_values() {
    for field in ["-1", "+0.25", "1e3", "1.5E-7", ".5", "7.", "inf", "-Infinity", "NaN"] {
        let mut text = row(139);
        text.push(',');
        text.push_str(field);
        assert!(read_ecg_raw_record(text.as_bytes()).is_ok(), "{field}");
    }
}

#[test]
fn numeric_grammar_rejects_malformed_fields() {
    for field in ["", "1..2", "e5", "1e", "--1", "0x10", "1.5f"] {
        let mut text = row(139);
        text.push(',');
        text.push_str(field);
        let r = read_ecg_raw_record(text.as_bytes());
        assert_eq!(r.unwrap_err(), ReadError::NonNumericField { row: 0 }, "{field}");
    }
}

#[test]
fn ten_records_split_into_eight_and_two() {
    let records: Vec<Vec<Vec<u8>>> = (0..10).map(|_| record(140)).collect();
    let train = EcgDataset::new("train", records.clone()).unwrap();
    let test = EcgDataset::new("test", records).unwrap();
    assert_eq!(train.len(), 8);
    assert_eq!(test.len(), 2);
    assert!(train.get(9).is_none());
    assert!(train.get(7).is_some());
    assert!(test.get(1).is_some());
    assert!(test.get(2).is_none());
}

#[test]
fn split_lengths_partition_any_count() {
    for n in [1usize, 2, 5, 7, 10, 99] {
        let records: Vec<Vec<Vec<u8>>> = (0..n).map(|_| record(140)).collect();
        let train = EcgDataset::new("train", records.clone()).unwrap();
        let test = EcgDataset::new("test", records).unwrap();
        assert_eq!(train.len(), n * 8 / 10);
        assert_eq!(train.len() + test.len(), n);
    }
}

#[test]
fn split_views_share_the_order_of_the_input() {
    let mut records: Vec<Vec<Vec<u8>>> = Vec::new();
    for i in 0..5 {
        let mut r = record(140);
        r[0] = format!("{}", i).into_bytes();
        records.push(r);
    }
    let train = EcgDataset::new("train", records.clone()).unwrap();
    let test = EcgDataset::new("test", records).unwrap();
    assert_eq!(train.get(0).unwrap()[0], b"0".to_vec());
    assert_eq!(train.get(3).unwrap()[0], b"3".to_vec());
    assert_eq!(test.get(0).unwrap()[0], b"4".to_vec());
}

#[test]
fn invalid_split_name_is_an_error() {
    let records: Vec<Vec<Vec<u8>>> = (0..4).map(|_| record(140)).collect();
    let r = EcgDataset::new("validation", records);
    assert_eq!(r.unwrap_err(), SplitError::InvalidName);
}

#[test]
fn batch_stacks_rows_and_copies_the_target() {
    let items = vec![
        vec![b"1".to_vec(), b"2".to_vec(), b"3".to_vec()],
        vec![b"4".to_vec(), b"5".to_vec(), b"6".to_vec()],
    ];
    let b = EcgBatcher::new().batch(&items).unwrap();
    assert_eq!(b.ecg.rows, 2);
    assert_eq!(b.ecg.cols, 3);
    assert_eq!(b.ecg.data.len(), 6);
    assert_eq!(b.ecg.data[0], b"1".to_vec());
    assert_eq!(b.ecg.data[3], b"4".to_vec());
    assert_eq!(b.ecg.data[5], b"6".to_vec());
    assert_eq!(b.ecg_out.rows, b.ecg.rows);
    assert_eq!(b.ecg_out.cols, b.ecg.cols);
    assert_eq!(b.ecg_out.data, b.ecg.data);
}

#[test]
fn batch_of_reader_records_has_140_columns() {
    let mut text = row(140);
    text.push('\n');
    text.push_str(&row(140));
    let recs = read_ecg_raw_record(text.as_bytes()).unwrap();
    let b = EcgBatcher::new().batch(&recs).unwrap();
    assert_eq!(b.ecg.rows, 2);
    assert_eq!(b.ecg.cols, 140);
    assert_eq!(b.ecg.data.len(), 280);
}

#[test]
fn empty_batch_is_an_error() {
    let items: Vec<Vec<Vec<u8>>> = Vec::new();
    let r = EcgBatcher::new().batch(&items);
    assert_eq!(r.unwrap_err(), BatchError::Empty);
}

#[test]
fn mismatched_lengths_are_an_error() {
    let items = vec![
        vec![b"1".to_vec(), b"2".to_vec()],
        vec![b"3".to_vec()],
    ];
    let r = EcgBatcher::new().batch(&items);
    assert_eq!(r.unwrap_err(), BatchError::MismatchedLengths);
}
