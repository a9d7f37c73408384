use mlat_client::altitude::{decode_ac12, decode_ac13};

#[test]
fn zero_and_metric_codes_have_no_altitude() {
    assert_eq!(decode_ac13(0), None);
    assert_eq!(decode_ac13(0x0040), None);
    assert_eq!(decode_ac13(0x0040 | 0x0010 | 0x0099), None);
}

#[test]
fn q_bit_code_counts_25_foot_steps() {
    // n = 41: bit 7 and bits 3 and 0.
    assert_eq!(decode_ac13(0x0099), Some(41 * 25 - 1000));
    assert_eq!(decode_ac13(0x1838), Some(38000));
}

#[test]
fn gillham_codes() {
    assert_eq!(decode_ac13(0x1000), Some(-1100));
    assert_eq!(decode_ac13(0x1400), Some(-1200));
    assert_eq!(decode_ac13(0x0100), Some(-900));
    assert_eq!(decode_ac13(0x1100), Some(-1000));
}

#[test]
fn illegal_gillham_codes() {
    assert_eq!(decode_ac13(0x0C00), None);
    assert_eq!(decode_ac13(0x0800), None);
}

#[test]
fn twelve_bit_codes() {
    assert_eq!(decode_ac12(0xC38), Some(38000));
    assert_eq!(decode_ac12(0x381), Some(46900));
    assert_eq!(decode_ac12(0), None);
}
