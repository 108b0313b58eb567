//! Checksummed metadata files.

use balik_db::checksum::{crc32, verify, wrap};
use balik_db::error::Error;

#[test]
fn crc32_known_vectors() {
    // Standard CRC32-IEEE test vector.
    assert_eq!(crc32(b"123456789"), 0xCBF4_3926);
    // Empty input: initial 0xFFFFFFFF XOR final 0xFFFFFFFF = 0.
    assert_eq!(crc32(b""), 0);
}

#[test]
fn round_trip_returns_body() {
    let body = b"format_version = 1\nname = \"users\"\n";
    let wrapped = wrap(body);
    let body_out = verify(&wrapped).unwrap();
    assert_eq!(body_out, body);
}

#[test]
fn wrap_starts_with_comment_line() {
    let wrapped = wrap(b"x = 1\n");
    assert!(wrapped.starts_with(b"# crc32 = 0x"));
    assert!(wrapped.contains(&b'\n'));
}

#[test]
fn detects_body_bit_flip() {
    let body = b"format_version = 1\n";
    let mut wrapped = wrap(body);
    let target = wrapped.len() - 4;
    wrapped[target] ^= 0x01;
    let err = verify(&wrapped).unwrap_err();
    assert!(err.to_string().contains("checksum mismatch"));
}

#[test]
fn detects_checksum_value_tamper() {
    let mut wrapped = wrap(b"a = 1\n");
    let pos = wrapped.iter().position(|&b| b == b'x').unwrap() + 1;
    wrapped[pos] = if wrapped[pos] == b'0' { b'1' } else { b'0' };
    let err = verify(&wrapped).unwrap_err();
    assert!(err.to_string().contains("checksum mismatch"));
}

#[test]
fn rejects_missing_header() {
    let err = verify(b"format_version = 1\n").unwrap_err();
    assert!(err.to_string().contains("checksum line"), "got: {}", err.to_string());
}

#[test]
fn rejects_malformed_hex() {
    let err = verify(b"# crc32 = 0xZZZZZZZZ\nfoo\n").unwrap_err();
    assert!(err.to_string().contains("not hex"), "got: {}", err.to_string());
}

#[test]
fn rejects_no_newline_at_all() {
    let err = verify(b"# crc32 = 0xdeadbeef").unwrap_err();
    assert!(err.to_string().contains("no newline"), "got: {}", err.to_string());
}

/// A file that was wrapped starts with the checksum of its body in hexadecimal.
#[test]
fn wrapped_file_is_the_line_and_the_body() {
    assert_eq!(wrap(b"123456789"), b"# crc32 = 0xcbf43926\n123456789".to_vec());
    assert_eq!(wrap(b""), b"# crc32 = 0x00000000\n".to_vec());
}

/// Two flipped bits next to each other are noticed too, wherever they stand.
#[test]
fn neighbouring_bit_flips_are_detected() {
    let body = b"a = 1\nb = 2\n".to_vec();
    let wrapped = wrap(&body);
    let start = wrapped.len() - body.len();
    for at in start..wrapped.len() {
        for bit in 0..7u32 {
            let mut bytes = wrapped.clone();
            bytes[at] ^= 3u8 << bit;
            assert!(verify(&bytes).is_err(), "byte {} bit {}", at, bit);
        }
    }
}

/// Every way in which a checksum line can be wrong has its own message.
#[test]
fn each_fault_of_the_line_has_its_message() {
    let text = |bytes: &[u8]| verify(bytes).unwrap_err().to_string();
    assert_eq!(text(b"abc"), "checksum line missing (no newline found)");
    assert_eq!(text(b"\xff\n"), "checksum line is not valid UTF-8");
    assert_eq!(text(b"abc\n"), "checksum line missing or malformed: 'abc'");
    assert!(matches!(
        verify(b"# crc32 = 0x00000001\n").unwrap_err(),
        Error::ChecksumMismatch(_)
    ));
}

/// A change within four bytes behind the checksum line is noticed, and the
/// message shows both checksums.
#[test]
fn altered_bytes_are_refused() {
    let body = b"format_version = 1\nname = \"users\"\n".to_vec();
    let wrapped = wrap(&body);
    let start = wrapped.len() - body.len();
    for at in start..wrapped.len() - 3 {
        let mut bytes = wrapped.clone();
        for (k, mask) in [0x81u8, 0x00, 0x7f, 0x10].iter().enumerate() {
            bytes[at + k] ^= mask;
        }
        let expected = format!(
            "checksum mismatch: stored 0x{:08x}, computed 0x{:08x}",
            crc32(&body),
            crc32(&bytes[start..])
        );
        assert_eq!(verify(&bytes).unwrap_err().to_string(), expected);
    }
}

/// Any two flipped bits are noticed.
#[test]
fn two_flipped_bits_are_refused() {
    let body = b"a = 1\nb = 2\n".to_vec();
    let wrapped = wrap(&body);
    let first = 8 * (wrapped.len() - body.len());
    for i in first..8 * wrapped.len() {
        for j in i + 1..8 * wrapped.len() {
            let mut bytes = wrapped.clone();
            bytes[i / 8] ^= 1 << (i % 8);
            bytes[j / 8] ^= 1 << (j % 8);
            assert!(verify(&bytes).is_err(), "bits {i} and {j}");
        }
    }
}
