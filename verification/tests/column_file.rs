//! Column files.

use balik_db::catalog::schema::ColumnType;
use balik_db::error::Error;
use balik_db::storage::column_file::{
    empty_header, read_column, read_header, truncate_column, write_column, write_empty, Header,
    FLAG_HAS_NULLS, FORMAT_VERSION, HEADER_SIZE, LOGICAL_INT, LOGICAL_TEXT, PHYSICAL_DICT,
    PHYSICAL_RAW,
};
use balik_db::storage::Value;

#[test]
fn empty_header_is_56_bytes() {
    assert_eq!(empty_header(ColumnType::Int).len(), HEADER_SIZE);
}

#[test]
fn empty_header_has_magic_and_version() {
    let buf = empty_header(ColumnType::Int);
    assert_eq!(&buf[0..8], b"BALIKCOL");
    let ver = u32::from_le_bytes(buf[8..12].try_into().unwrap());
    assert_eq!(ver, FORMAT_VERSION);
}

#[test]
fn empty_header_encodes_int_type() {
    let buf = empty_header(ColumnType::Int);
    assert_eq!(buf[12], LOGICAL_INT);
    assert_eq!(buf[13], PHYSICAL_RAW);
    assert_eq!(buf[14], 0); // flags
}

#[test]
fn empty_header_encodes_text_type() {
    let buf = empty_header(ColumnType::Text);
    assert_eq!(buf[12], LOGICAL_TEXT);
}

#[test]
fn empty_header_zeroes_counts_and_stamps_int_sentinel() {
    let buf = empty_header(ColumnType::Int);
    let row_count = u32::from_le_bytes(buf[16..20].try_into().unwrap());
    let null_count = u32::from_le_bytes(buf[20..24].try_into().unwrap());
    assert_eq!(row_count, 0);
    assert_eq!(null_count, 0);
    // Sentinel pair for INT: min = i64::MAX, max = i64::MIN. The trailing
    // 8 bytes of each 16-byte slot stay zero.
    assert_eq!(
        i64::from_le_bytes(buf[24..32].try_into().unwrap()),
        i64::MAX
    );
    assert_eq!(
        i64::from_le_bytes(buf[40..48].try_into().unwrap()),
        i64::MIN
    );
    assert!(buf[32..40].iter().all(|&b| b == 0));
    assert!(buf[48..56].iter().all(|&b| b == 0));
}

#[test]
fn empty_header_zeroes_text_stats() {
    let buf = empty_header(ColumnType::Text);
    assert!(buf[24..40].iter().all(|&b| b == 0), "TEXT min stays zero");
    assert!(buf[40..56].iter().all(|&b| b == 0), "TEXT max stays zero");
}

#[test]
fn write_then_read_round_trips_int() {
    let bytes = write_empty(ColumnType::Int);
    let (h, _) = read_column(Some(&bytes), "data.col").unwrap();
    assert_eq!(h.format_version, FORMAT_VERSION);
    assert_eq!(h.logical_type, ColumnType::Int);
    assert_eq!(h.physical_encoding, PHYSICAL_RAW);
    assert_eq!(h.flags, 0);
    assert!(!h.has_nulls());
    assert_eq!(h.row_count, 0);
    assert_eq!(h.null_count, 0);
    assert_eq!(h.int_min(), None);
    assert_eq!(h.int_max(), None);
}

#[test]
fn write_then_read_round_trips_text() {
    let bytes = write_empty(ColumnType::Text);
    let (h, _) = read_column(Some(&bytes), "data.col").unwrap();
    assert_eq!(h.logical_type, ColumnType::Text);
}

#[test]
fn has_nulls_reflects_flag_bit() {
    let mut h = Header {
        format_version: FORMAT_VERSION,
        logical_type: ColumnType::Int,
        physical_encoding: 0,
        flags: 0,
        row_count: 0,
        null_count: 0,
        min: [0u8; 16],
        max: [0u8; 16],
    };
    assert!(!h.has_nulls());
    h.flags |= FLAG_HAS_NULLS;
    assert!(h.has_nulls());
}

#[test]
fn read_column_rejects_short_file() {
    let bytes = b"too short".to_vec();
    let err = read_column(Some(&bytes), "data.col").unwrap_err();
    assert!(err.to_string().contains("shorter than"));
}

#[test]
fn read_column_rejects_bad_magic() {
    let mut bytes = empty_header(ColumnType::Int);
    bytes[0..8].copy_from_slice(b"NOPENOPE");
    let err = read_column(Some(&bytes), "data.col").unwrap_err();
    assert!(err.to_string().contains("bad magic"));
}

#[test]
fn read_column_rejects_too_new_format() {
    let mut bytes = empty_header(ColumnType::Int);
    let future = FORMAT_VERSION + 1;
    bytes[8..12].copy_from_slice(&future.to_le_bytes());
    let err = read_column(Some(&bytes), "data.col").unwrap_err();
    assert!(err.to_string().contains("format_version"));
}

#[test]
fn read_column_rejects_unknown_logical_type() {
    let mut bytes = empty_header(ColumnType::Int);
    bytes[12] = 99;
    let err = read_column(Some(&bytes), "data.col").unwrap_err();
    assert!(err.to_string().contains("unknown logical type"));
}

fn roundtrip(ty: ColumnType, values: &[Value]) -> Vec<Value> {
    let bytes = write_column(ty, values, &[]).unwrap();
    read_column(Some(&bytes), "data.col").unwrap().1
}

#[test]
fn int_round_trips_without_nulls() {
    let values = vec![Value::Int(1), Value::Int(-42), Value::Int(i64::MAX)];
    assert_eq!(roundtrip(ColumnType::Int, &values), values);
}

#[test]
fn int_round_trips_with_nulls() {
    let values = vec![Value::Int(7), Value::Null, Value::Int(9), Value::Null];
    assert_eq!(roundtrip(ColumnType::Int, &values), values);

    // The presence bitmap is materialized: flag set, null_count correct.
    let bytes = write_column(ColumnType::Int, &values, &[]).unwrap();
    let (h, _) = read_column(Some(&bytes), "data.col").unwrap();
    assert!(h.has_nulls());
    assert_eq!(h.row_count, 4);
    assert_eq!(h.null_count, 2);
}

#[test]
fn text_round_trips_with_nulls_and_duplicates() {
    let values = vec![
        Value::Text("alice".to_string()),
        Value::Null,
        Value::Text(String::new()), // empty string is distinct from NULL
        Value::Text("alice".to_string()),
    ];
    assert_eq!(roundtrip(ColumnType::Text, &values), values);
}

#[test]
fn empty_and_all_null_columns_round_trip() {
    assert_eq!(roundtrip(ColumnType::Int, &[]), Vec::<Value>::new());
    let all_null = vec![Value::Null, Value::Null];
    assert_eq!(roundtrip(ColumnType::Text, &all_null), all_null);
}

#[test]
fn no_nulls_means_no_presence_bitmap() {
    // 3 INT rows, no NULLs: 56-byte header + 3 * 8 bytes, no bitmap.
    let bytes = write_column(
        ColumnType::Int,
        &[Value::Int(1), Value::Int(2), Value::Int(3)],
        &[],
    )
    .unwrap();
    assert_eq!(bytes.len(), HEADER_SIZE + 24);
}

#[test]
fn write_column_rejects_value_of_wrong_type() {
    let err =
        write_column(ColumnType::Int, &[Value::Text("x".to_string())], &[]).unwrap_err();
    assert!(err.to_string().contains("INT column received a TEXT"));
}

fn read_int_stats(values: &[Value], deleted: &[u8]) -> (Option<i64>, Option<i64>) {
    let bytes = write_column(ColumnType::Int, values, deleted).unwrap();
    let (h, _) = read_column(Some(&bytes), "data.col").unwrap();
    (h.int_min(), h.int_max())
}

#[test]
fn int_min_max_covers_live_values_only() {
    let values = vec![
        Value::Int(3),
        Value::Null,
        Value::Int(-7),
        Value::Int(42),
        Value::Int(i64::MIN),
        Value::Int(i64::MAX),
    ];
    assert_eq!(
        read_int_stats(&values, &[]),
        (Some(i64::MIN), Some(i64::MAX))
    );
}

#[test]
fn int_min_max_is_sentinel_for_empty_and_all_null() {
    assert_eq!(read_int_stats(&[], &[]), (None, None));
    assert_eq!(
        read_int_stats(&[Value::Null, Value::Null], &[]),
        (None, None)
    );
}

#[test]
fn int_min_max_equals_single_value() {
    assert_eq!(read_int_stats(&[Value::Int(99)], &[]), (Some(99), Some(99)));
}

#[test]
fn int_min_max_excludes_deleted_offsets() {
    // Live values [1, 5, 9]; offset 1 (value 5) is tombstoned.
    let values = vec![Value::Int(1), Value::Int(5), Value::Int(9)];
    let deleted = vec![0b0000_0010u8]; // bit 1 set
    assert_eq!(read_int_stats(&values, &deleted), (Some(1), Some(9)));

    // Deleting the extremes leaves only the middle value.
    let deleted = vec![0b0000_0101u8]; // bits 0 and 2
    assert_eq!(read_int_stats(&values, &deleted), (Some(5), Some(5)));

    // Deleting every offset returns to the sentinel.
    let deleted = vec![0b0000_0111u8];
    assert_eq!(read_int_stats(&values, &deleted), (None, None));
}

#[test]
fn text_columns_never_report_int_stats() {
    let bytes = write_column(
        ColumnType::Text,
        &[Value::Text("alice".to_string())],
        &[],
    )
    .unwrap();
    let (h, _) = read_column(Some(&bytes), "data.col").unwrap();
    assert_eq!(h.int_min(), None);
    assert_eq!(h.int_max(), None);
    // Slots stay zeroed for TEXT.
    assert!(h.min.iter().all(|&b| b == 0));
    assert!(h.max.iter().all(|&b| b == 0));
}

fn write_text_and_read_back(values: &[Value]) -> (Header, Vec<Value>) {
    let bytes = write_column(ColumnType::Text, values, &[]).unwrap();
    let (h, decoded) = read_column(Some(&bytes), "data.col").unwrap();
    (h, decoded)
}

#[test]
fn text_low_cardinality_picks_dict() {
    let values = vec![
        Value::Text("shipped".to_string()),
        Value::Text("pending".to_string()),
        Value::Text("shipped".to_string()),
        Value::Text("pending".to_string()),
        Value::Text("shipped".to_string()),
    ];
    let (h, decoded) = write_text_and_read_back(&values);
    assert_eq!(h.physical_encoding, PHYSICAL_DICT);
    assert_eq!(decoded, values);
}

#[test]
fn text_high_cardinality_picks_raw() {
    let values = vec![
        Value::Text("a".to_string()),
        Value::Text("b".to_string()),
        Value::Text("c".to_string()),
        Value::Text("d".to_string()),
    ];
    let (h, decoded) = write_text_and_read_back(&values);
    assert_eq!(h.physical_encoding, PHYSICAL_RAW);
    assert_eq!(decoded, values);
}

#[test]
fn text_dict_round_trips_with_nulls() {
    // Many repeats so dict wins; NULLs are masked by the presence bitmap
    // and decode correctly regardless of the code stored for them.
    let values = vec![
        Value::Text("shipped".to_string()),
        Value::Null,
        Value::Text("shipped".to_string()),
        Value::Text("pending".to_string()),
        Value::Null,
        Value::Text("shipped".to_string()),
    ];
    let (h, decoded) = write_text_and_read_back(&values);
    assert_eq!(h.physical_encoding, PHYSICAL_DICT);
    assert!(h.has_nulls());
    assert_eq!(decoded, values);
}

#[test]
fn text_single_distinct_value_repeated_picks_dict() {
    let values = vec![
        Value::Text("alice".to_string()),
        Value::Text("alice".to_string()),
        Value::Text("alice".to_string()),
    ];
    let (h, decoded) = write_text_and_read_back(&values);
    assert_eq!(h.physical_encoding, PHYSICAL_DICT);
    assert_eq!(decoded, values);
}

#[test]
fn text_empty_and_all_null_pick_raw() {
    // Empty: raw payload is 0 bytes vs dict's 4-byte dict_count header.
    let (h, decoded) = write_text_and_read_back(&[]);
    assert_eq!(h.physical_encoding, PHYSICAL_RAW);
    assert!(decoded.is_empty());

    // All-NULL: same reason — raw skips the dict_count header.
    let (h, decoded) = write_text_and_read_back(&[Value::Null, Value::Null]);
    assert_eq!(h.physical_encoding, PHYSICAL_RAW);
    assert_eq!(decoded, vec![Value::Null, Value::Null]);
}

#[test]
fn read_column_rejects_truncated_data() {
    let bytes = write_column(ColumnType::Int, &[Value::Int(1), Value::Int(2)], &[]).unwrap();
    // Lop off the last value's bytes; the header still claims 2 rows.
    let mut bytes = bytes;
    bytes.truncate(bytes.len() - 8);
    assert!(
        read_column(Some(&bytes), "data.col")
            .unwrap_err()
            .to_string()
            .contains("truncated")
    );
}

/// The bytes of a small INT column, field by field.
#[test]
fn int_column_has_the_documented_layout() {
    let bytes = write_column(ColumnType::Int, &[Value::Int(7), Value::Null], &[]).unwrap();
    let mut expected = b"BALIKCOL".to_vec();
    expected.extend([1, 0, 0, 0]); // format version
    expected.extend([0, 0, 1, 0]); // INT, raw, has NULLs, reserved
    expected.extend([2, 0, 0, 0]); // rows
    expected.extend([1, 0, 0, 0]); // NULLs
    expected.extend([7, 0, 0, 0, 0, 0, 0, 0, 0, 0, 0, 0, 0, 0, 0, 0]); // min
    expected.extend([7, 0, 0, 0, 0, 0, 0, 0, 0, 0, 0, 0, 0, 0, 0, 0]); // max
    expected.push(0b0000_0001); // presence
    expected.extend([7, 0, 0, 0, 0, 0, 0, 0]);
    expected.extend([0; 8]);
    assert_eq!(bytes, expected);
}

/// Cutting a column to its first rows is the column of those rows.
#[test]
fn truncating_keeps_the_first_rows() {
    let text = |s: &str| Value::Text(s.to_string());
    let values = vec![text("x"), Value::Null, text("y"), text("x")];
    let bytes = write_column(ColumnType::Text, &values, &[]).unwrap();
    for n in 0..=4usize {
        let cut = truncate_column(Some(&bytes), "t.col", ColumnType::Text, n, &[]).unwrap();
        let expected = write_column(ColumnType::Text, &values[..n], &[]).unwrap();
        assert_eq!(cut, expected);
    }
}

/// The header alone reads as it does with the values.
#[test]
fn header_reads_alone() {
    let bytes = write_column(ColumnType::Int, &[Value::Int(-3), Value::Int(8)], &[]).unwrap();
    let alone = read_header(Some(&bytes), "a.col").unwrap();
    let (full, values) = read_column(Some(&bytes), "a.col").unwrap();
    assert_eq!(alone, full);
    assert_eq!(alone.int_range(), Some((-3, 8)));
    assert_eq!(values, vec![Value::Int(-3), Value::Int(8)]);
}

/// Texts keep their characters, whatever those are.
#[test]
fn text_outside_ascii_round_trips() {
    let values: Vec<Value> =
        ["naïve", "日本", "", "🦀"].iter().map(|s| Value::Text(s.to_string())).collect();
    assert_eq!(roundtrip(ColumnType::Text, &values), values);
}

#[test]
fn missing_column_is_an_io_error() {
    assert!(matches!(read_column(None, "a.col").unwrap_err(), Error::Io { .. }));
    assert!(matches!(read_header(None, "a.col").unwrap_err(), Error::Io { .. }));
}

/// No written file reads once its end is missing, however little that is.
#[test]
fn no_prefix_reads() {
    let text = |s: &str| Value::Text(s.to_string());
    let dictionary: Vec<Value> =
        (0..40).map(|i| text(if i % 2 == 0 { "even" } else { "odd" })).collect();
    let cases = [
        (ColumnType::Int, vec![]),
        (ColumnType::Int, vec![Value::Int(1), Value::Null, Value::Int(-5)]),
        (ColumnType::Text, vec![text("abc"), Value::Null, text("d")]),
        (ColumnType::Text, dictionary),
    ];
    for (ty, values) in cases {
        let bytes = write_column(ty, &values, &[]).unwrap();
        assert!(read_column(Some(&bytes), "p.col").is_ok());
        for n in 0..bytes.len() {
            let short = bytes[..n].to_vec();
            assert!(read_column(Some(&short), "p.col").is_err(), "{n} of {}", bytes.len());
        }
    }
}

/// A file that no writer here would make, with bytes behind its values, still
/// reads, and is cut back to its first rows.
#[test]
fn any_readable_file_is_cut_back() {
    let mut bytes = write_column(ColumnType::Int, &[Value::Int(4), Value::Int(5)], &[]).unwrap();
    bytes.extend([9; 11]);
    let cut = truncate_column(Some(&bytes), "t.col", ColumnType::Int, 1, &[]).unwrap();
    assert_eq!(cut, write_column(ColumnType::Int, &[Value::Int(4)], &[]).unwrap());
    assert!(truncate_column(Some(&bytes), "t.col", ColumnType::Int, 3, &[]).is_err());
}
