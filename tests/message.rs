use std::cmp::Ordering;
use std::collections::BTreeMap;

use mlat_client::message::{
    df_event_name, modesmessage_from_buffer, modesmessage_new_eventmessage, ModesMessage,
    DF_EVENT_MODE_CHANGE, DF_EVENT_RADARCAPE_POSITION, DF_EVENT_TIMESTAMP_JUMP, DF_MODEAC,
};

fn hex_bytes(s: &str) -> Vec<u8> {
    (0..s.len())
        .step_by(2)
        .map(|i| u8::from_str_radix(&s[i..i + 2], 16).unwrap())
        .collect()
}

#[test]
fn mode_ac_payload() {
    let m = ModesMessage::from_buffer(1, 5, vec![0x12, 0x34]).unwrap();
    assert_eq!(m.df, DF_MODEAC);
    assert_eq!(m.address, 0x1234);
    assert!(m.valid);
    assert_eq!(m.altitude, None);
    assert_eq!(m.crc, 0);
    assert_eq!(m.len(), 2);
}

#[test]
fn df11_with_low_residual_is_valid() {
    let m = ModesMessage::from_buffer(0, 0, hex_bytes("5d4840d6f8740a")).unwrap();
    assert_eq!(m.df, 11);
    assert_eq!(m.crc, 5);
    assert!(m.valid);
    assert_eq!(m.address, 0x4840D6);
}

#[test]
fn df11_with_high_residual_is_invalid() {
    let m = ModesMessage::from_buffer(0, 0, hex_bytes("5d4840d6f8748f")).unwrap();
    assert_eq!(m.df, 11);
    assert_eq!(m.crc, 0x80);
    assert!(!m.valid);
    assert_eq!(m.address, 0);
}

#[test]
fn df17_airborne_position_even_and_odd() {
    let even = ModesMessage::from_buffer(10, 20, hex_bytes("8d40621d58c382d690c8ac2863a7")).unwrap();
    assert_eq!(even.df, 17);
    assert!(even.valid);
    assert_eq!(even.crc, 0);
    assert_eq!(even.address, 0x40621D);
    assert_eq!(even.nuc, 7);
    assert!(even.even_cpr && !even.odd_cpr);
    assert_eq!(even.altitude, Some(38000));
    let odd = ModesMessage::from_buffer(10, 20, hex_bytes("8d40621d58c386435cc412692ad6")).unwrap();
    assert!(odd.valid);
    assert!(odd.odd_cpr && !odd.even_cpr);
    assert_eq!(odd.altitude, Some(38000));
}

#[test]
fn df17_with_bad_checksum_is_invalid() {
    let m = ModesMessage::from_buffer(0, 0, hex_bytes("8d40621d58c382d690c8ac2863a6")).unwrap();
    assert_eq!(m.df, 17);
    assert!(!m.valid);
    assert_eq!(m.crc, 1);
    assert_eq!(m.address, 0);
    assert!(!m.even_cpr && !m.odd_cpr);
}

#[test]
fn df17_identification_is_valid_without_position() {
    let m = ModesMessage::from_buffer(0, 0, hex_bytes("8d4840d6202cc371c32ce0576098")).unwrap();
    assert!(m.valid);
    assert_eq!(m.address, 0x4840D6);
    assert_eq!(m.nuc, 0);
    assert_eq!(m.altitude, None);
}

#[test]
fn df4_address_is_residual_and_altitude_decoded() {
    let m = ModesMessage::from_buffer(0, 0, hex_bytes("2000183859c38d")).unwrap();
    assert_eq!(m.df, 4);
    assert!(m.valid);
    assert_eq!(m.address, 0x4840D6);
    assert_eq!(m.altitude, Some(38000));
}

#[test]
fn df5_address_is_residual() {
    let m = ModesMessage::from_buffer(0, 0, hex_bytes("280018381a5025")).unwrap();
    assert_eq!(m.df, 5);
    assert!(m.valid);
    assert_eq!(m.address, 0xABCDEF);
    assert_eq!(m.altitude, None);
}

#[test]
fn wrong_length_or_unknown_format_stays_invalid() {
    // DF17 in a 7-byte payload.
    let m = ModesMessage::from_buffer(0, 0, hex_bytes("8d4840d6202cc3")).unwrap();
    assert_eq!(m.df, 17);
    assert!(!m.valid);
    assert_eq!(m.crc, 0);
    // DF1 is not decoded.
    let m = ModesMessage::from_buffer(0, 0, hex_bytes("0d4840d6202cc3")).unwrap();
    assert_eq!(m.df, 1);
    assert!(!m.valid);
}

#[test]
fn from_buffer_rejects_bad_input() {
    assert!(ModesMessage::from_buffer(0, 256, vec![0x12, 0x34]).is_err());
    assert!(ModesMessage::from_buffer(0, 0, vec![0x12, 0x34, 0x56]).is_err());
    assert!(ModesMessage::from_buffer(0, 0, vec![]).is_err());
}

#[test]
fn from_buffer_entry_point_takes_a_prefix() {
    let m = modesmessage_from_buffer(7, 8, vec![0x12, 0x34, 0x56], 2);
    assert_eq!(m.data, vec![0x12, 0x34]);
    assert_eq!(m.datalen, 2);
    assert_eq!(m.timestamp, 7);
    assert_eq!(m.signal, 8);
    assert_eq!(m.address, 0x1234);
}

#[test]
fn event_records() {
    let mut data = BTreeMap::new();
    data.insert("a".to_string(), "b".to_string());
    let m = ModesMessage::new_event_message(DF_EVENT_TIMESTAMP_JUMP, 100, data.clone());
    assert_eq!(m.df, DF_EVENT_TIMESTAMP_JUMP);
    assert_eq!(m.timestamp, 100);
    assert!(!m.valid);
    assert!(m.data.is_empty());
    assert_eq!(m.eventdata(), &data);
    assert_eq!(m.to_string(), "DF_EVENT_TIMESTAMP_JUMP@100:{\"a\": \"b\"}");
    let m = modesmessage_new_eventmessage(DF_EVENT_RADARCAPE_POSITION, 5, BTreeMap::new());
    assert_eq!(m.to_string(), "DF37@5:{}");
}

#[test]
fn event_names() {
    assert_eq!(df_event_name(DF_EVENT_MODE_CHANGE), Some("DF_EVENT_MODE_CHANGE".to_string()));
    assert_eq!(df_event_name(36), Some("DF_EVENT_RADARCAPE_STATUS".to_string()));
    assert_eq!(df_event_name(DF_EVENT_RADARCAPE_POSITION), None);
    assert_eq!(df_event_name(17), None);
}

#[test]
fn payload_renders_as_lowercase_hex() {
    let m = ModesMessage::from_buffer(0, 0, hex_bytes("8d4840d6202cc371c32ce0576098")).unwrap();
    assert_eq!(m.to_string(), "8d4840d6202cc371c32ce0576098");
}

#[test]
fn hash_of_first_four_bytes() {
    let m = ModesMessage::from_buffer(0, 0, vec![0x12, 0x34]).unwrap();
    assert_eq!(m.hash(), 1046177886);
    let m = ModesMessage::from_buffer(0, 0, hex_bytes("8d40621d58c382d690c8ac2863a7")).unwrap();
    assert_eq!(m.hash(), 1864838197);
    let e = ModesMessage::new_event_message(DF_EVENT_MODE_CHANGE, 0, BTreeMap::new());
    assert_eq!(e.hash(), 0);
}

#[test]
fn compare_by_length_then_bytes() {
    let short = ModesMessage::from_buffer(0, 0, vec![0xFF, 0xFF]).unwrap();
    let a = ModesMessage::from_buffer(0, 0, hex_bytes("5d4840d6f8740a")).unwrap();
    let b = ModesMessage::from_buffer(9, 9, hex_bytes("5d4840d6f8748f")).unwrap();
    assert_eq!(short.compare(&a), Ordering::Less);
    assert_eq!(a.compare(&short), Ordering::Greater);
    assert_eq!(a.compare(&b), Ordering::Less);
    assert_eq!(b.compare(&a), Ordering::Greater);
    assert_eq!(a.compare(&a.clone()), Ordering::Equal);
}
