use mlat_client::crc::{checksum, checksum_compare, modescrc_buffer_crc};

fn hex_bytes(s: &str) -> Vec<u8> {
    (0..s.len())
        .step_by(2)
        .map(|i| u8::from_str_radix(&s[i..i + 2], 16).unwrap())
        .collect()
}

#[test]
fn checksum_of_known_long_frame() {
    let d = hex_bytes("8d4840d6202cc371c32ce0576098");
    assert_eq!(checksum(&d, None), 0x576098);
    assert_eq!(checksum(&d, Some(112)), 0x576098);
    assert!(checksum_compare(&d, None));
}

#[test]
fn checksum_of_other_lengths_is_zero() {
    assert_eq!(checksum(&[0xFF; 11], None), 0);
    assert!(!checksum_compare(&[0xFF; 11], None));
}

#[test]
fn corrupted_frame_fails_compare() {
    let d = hex_bytes("8d40621d58c382d690c8ac2863a6");
    assert!(!checksum_compare(&d, None));
    let good = hex_bytes("8d40621d58c382d690c8ac2863a7");
    assert!(checksum_compare(&good, None));
}

#[test]
fn frame_carrying_its_own_checksum_compares_true() {
    let mut frame: Vec<u8> = (1..=11).collect();
    frame.extend([0, 0, 0]);
    let c = checksum(&frame, None);
    frame[11] = (c >> 16) as u8;
    frame[12] = (c >> 8) as u8;
    frame[13] = c as u8;
    assert_eq!(frame, hex_bytes("0102030405060708090a0ba02b88"));
    assert!(checksum_compare(&frame, None));
}

#[test]
fn buffer_crc_reads_last_three_bytes() {
    let d = hex_bytes("8d4840d6202cc371c32ce0576098");
    assert_eq!(modescrc_buffer_crc(&d, None), 0x576098);
    assert_eq!(modescrc_buffer_crc(&d, Some(56)), 0x202cc3);
    assert_eq!(modescrc_buffer_crc(&[1, 2], None), 0);
}

#[test]
fn short_frame_checksum_uses_table_tail() {
    let d = hex_bytes("5d4840d6f8740a");
    assert_eq!(checksum(&d, None) ^ modescrc_buffer_crc(&d, None), 5);
    assert!(!checksum_compare(&d, None));
}
