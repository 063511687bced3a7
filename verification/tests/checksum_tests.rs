//! Checksum tests against independently known values: the FLAC CRC
//! polynomials and the audio MD5.

use soundly::crc::{build_crc8_table, crc8, crc16, crc16_table};
use soundly::md5::{compute_md5, MD5Context};

#[test]
fn crc8_matches_the_standard_check_value() {
    // CRC-8 with polynomial 0x07, no reflection, zero init: the standard
    // check value over the digits one through nine
    assert_eq!(crc8(b"123456789"), 0xF4);
    assert_eq!(crc8(b""), 0x00);
}

#[test]
fn crc16_matches_the_standard_check_value() {
    // CRC-16 with polynomial 0x8005, no reflection, zero init
    assert_eq!(crc16(b"123456789"), 0xFEE8);
    assert_eq!(crc16(b""), 0x0000);
}

#[test]
fn crc8_table_agrees_with_the_bitwise_definition() {
    let table = build_crc8_table();
    assert_eq!(table.len(), 256);
    for i in 0..256usize {
        let mut crc = i as u8;
        for _ in 0..8 {
            crc = if crc & 0x80 != 0 { (crc << 1) ^ 0x07 } else { crc << 1 };
        }
        assert_eq!(table[i], crc);
    }
    // one-byte messages go straight through the table
    assert_eq!(crc8(&[0xAB]), table[0xAB]);
}

#[test]
fn crc16_table_entries_match_a_direct_run() {
    for v in [0u8, 1, 0x80, 0xFF] {
        let mut crc = (v as u16) << 8;
        for _ in 0..8 {
            crc = if crc & 0x8000 != 0 { (crc << 1) ^ 0x8005 } else { crc << 1 };
        }
        assert_eq!(crc16_table(v), crc);
    }
}

#[test]
fn md5_of_known_bytes() {
    // "abcd" fed as two little-endian 16-bit samples
    let samples = [i16::from_le_bytes([b'a', b'b']), i16::from_le_bytes([b'c', b'd'])];
    let digest = compute_md5(&samples);
    let expected: [u8; 16] = [
        0xe2, 0xfc, 0x71, 0x4c, 0x47, 0x27, 0xee, 0x93, 0x95, 0xf3, 0x24, 0xcd, 0x2e, 0x7f, 0x33,
        0x1f,
    ];
    assert_eq!(digest, expected);
}

#[test]
fn md5_of_empty_input() {
    let digest = compute_md5(&[]);
    let expected: [u8; 16] = [
        0xd4, 0x1d, 0x8c, 0xd9, 0x8f, 0x00, 0xb2, 0x04, 0xe9, 0x80, 0x09, 0x98, 0xec, 0xf8, 0x42,
        0x7e,
    ];
    assert_eq!(digest, expected);
}

#[test]
fn md5_context_buffers_across_updates() {
    // feeding byte by byte and all at once agree, across a block boundary
    let data: Vec<u8> = (0..150u8).collect();
    let mut one = MD5Context::new();
    one.update(&data);
    let all_at_once = one.finalize();

    let mut two = MD5Context::new();
    for b in &data {
        two.update(&[*b]);
    }
    let byte_by_byte = two.finalize();
    assert_eq!(all_at_once, byte_by_byte);
}
