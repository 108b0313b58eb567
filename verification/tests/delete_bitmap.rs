//! Delete bitmaps.

use balik_db::error::Error;
use balik_db::storage::delete_bitmap::{
    bitmap_bytes, empty_file, is_deleted, load, mark_deleted, FORMAT_VERSION, HEADER_SIZE,
};

#[test]
fn bitmap_bytes_rounds_up() {
    assert_eq!(bitmap_bytes(0), 0);
    assert_eq!(bitmap_bytes(1), 1);
    assert_eq!(bitmap_bytes(8), 1);
    assert_eq!(bitmap_bytes(9), 2);
    assert_eq!(bitmap_bytes(8192), 1024);
}

#[test]
fn empty_file_size_matches_row_group_size() {
    assert_eq!(empty_file(8192).len(), HEADER_SIZE + 1024);
    assert_eq!(empty_file(0).len(), HEADER_SIZE);
    assert_eq!(empty_file(1).len(), HEADER_SIZE + 1);
}

#[test]
fn empty_file_has_magic_and_version() {
    let buf = empty_file(8192);
    assert_eq!(&buf[0..8], b"BALIKDEL");
    let ver = u32::from_le_bytes(buf[8..12].try_into().unwrap());
    assert_eq!(ver, FORMAT_VERSION);
}

#[test]
fn empty_file_zeroes_counts_and_bitmap() {
    let buf = empty_file(8192);
    let deleted = u32::from_le_bytes(buf[12..16].try_into().unwrap());
    assert_eq!(deleted, 0);
    assert!(
        buf[16..24].iter().all(|&b| b == 0),
        "reserved region should be zeroed"
    );
    assert!(
        buf[24..].iter().all(|&b| b == 0),
        "bitmap should be all-live"
    );
}

#[test]
fn write_then_read_round_trips() {
    let bytes = empty_file(8192);
    let (h, _) = load(Some(&bytes), "deletes.bm").unwrap();
    assert_eq!(h.format_version, FORMAT_VERSION);
    assert_eq!(h.deleted_count, 0);
    assert_eq!(bytes.len(), HEADER_SIZE + 1024);
}

#[test]
fn load_rejects_short_file() {
    let bytes = b"too short".to_vec();
    let err = load(Some(&bytes), "bad.bm").unwrap_err();
    assert!(err.to_string().contains("shorter than"));
}

#[test]
fn load_rejects_bad_magic() {
    let mut bytes = empty_file(8192);
    bytes[0..8].copy_from_slice(b"NOPENOPE");
    let err = load(Some(&bytes), "bad.bm").unwrap_err();
    assert!(err.to_string().contains("bad magic"));
}

#[test]
fn load_rejects_too_new_format() {
    let mut bytes = empty_file(8192);
    let future = FORMAT_VERSION + 1;
    bytes[8..12].copy_from_slice(&future.to_le_bytes());
    let err = load(Some(&bytes), "bad.bm").unwrap_err();
    assert!(err.to_string().contains("format_version"));
}

#[test]
fn load_returns_header_and_bitmap_sized_to_row_group() {
    let bytes = empty_file(17); // 17 rows, 3 bitmap bytes
    let (header, bitmap) = load(Some(&bytes), "deletes.bm").unwrap();
    assert_eq!(header.deleted_count, 0);
    assert_eq!(bitmap.len(), 3);
    assert!(bitmap.iter().all(|&b| b == 0));
}

#[test]
fn is_deleted_reads_lsb_first_within_bytes() {
    // bit 0 + bit 9 set; LSB-first within each byte.
    let bitmap = vec![0b0000_0001, 0b0000_0010];
    assert!(is_deleted(&bitmap, 0));
    assert!(!is_deleted(&bitmap, 1));
    assert!(!is_deleted(&bitmap, 8));
    assert!(is_deleted(&bitmap, 9));
}

#[test]
fn is_deleted_treats_out_of_range_as_live() {
    let bitmap = vec![0xFF];
    assert!(is_deleted(&bitmap, 0));
    assert!(!is_deleted(&bitmap, 8)); // past the end → live
    assert!(!is_deleted(&[], 0)); // empty bitmap (rgs=0) → never deleted
}

/// Marking a row sets its bit and counts it, and leaves the other rows alone.
#[test]
fn marking_a_row_sets_one_bit_and_counts_it() {
    let mut bytes = empty_file(17);
    bytes = mark_deleted(Some(&bytes), "deletes.bm", 9).unwrap();
    bytes = mark_deleted(Some(&bytes), "deletes.bm", 0).unwrap();
    let (header, bitmap) = load(Some(&bytes), "deletes.bm").unwrap();
    assert_eq!(header.deleted_count, 2);
    assert_eq!(bitmap, vec![0b0000_0001, 0b0000_0010, 0]);
    for row in 0..17 {
        assert_eq!(is_deleted(&bitmap, row), row == 0 || row == 9);
    }
    let same = mark_deleted(Some(&bytes), "deletes.bm", 9).unwrap();
    assert_eq!(load(Some(&same), "deletes.bm").unwrap().0.deleted_count, 2);
}

#[test]
fn missing_bitmap_is_an_io_error() {
    let err = load(None, "deletes.bm").unwrap_err();
    assert!(matches!(err, Error::Io { .. }), "got: {}", err.to_string());
}
