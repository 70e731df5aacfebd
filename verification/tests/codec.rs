use telemetry_core::codec::{decode_q16_15, FixedValue};

fn as_f64(v: FixedValue) -> f64 {
    v.int_part as f64 + v.frac_num as f64 / 32768.0
}

#[test]
fn decode_zero_is_zero() {
    assert_eq!(as_f64(decode_q16_15(0x0000_0000)), 0.0);
}

#[test]
fn decode_one() {
    assert_eq!(as_f64(decode_q16_15(0x0000_8000)), 1.0);
}

#[test]
fn decode_minus_one() {
    assert_eq!(as_f64(decode_q16_15(0xFFFF_8000)), -1.0);
}

#[test]
fn decode_half() {
    assert_eq!(as_f64(decode_q16_15(0x0000_4000)), 0.5);
}

#[test]
fn decode_two_and_a_half() {
    let v = decode_q16_15(0x0001_4000);
    assert_eq!(v.int_part, 2);
    assert_eq!(v.frac_num, 0x4000);
    assert_eq!(as_f64(v), 2.5);
}

#[test]
fn decode_all_ones_is_just_below_zero() {
    let v = decode_q16_15(0xFFFF_FFFF);
    assert_eq!(v.int_part, -1);
    assert_eq!(v.frac_num, 0x7FFF);
    assert_eq!(as_f64(v), -1.0 / 32768.0);
}

#[test]
fn decode_extremes() {
    let lo = decode_q16_15(0x8000_0000);
    assert_eq!(lo.int_part, -65536);
    assert_eq!(lo.frac_num, 0);
    let hi = decode_q16_15(0x7FFF_FFFF);
    assert_eq!(hi.int_part, 65535);
    assert_eq!(hi.frac_num, 0x7FFF);
}

#[test]
fn decode_is_pure() {
    for w in [0u32, 1, 0x8000, 0x4000, 0xFFFF_8000, 0xDEAD_BEEF, u32::MAX] {
        assert_eq!(decode_q16_15(w), decode_q16_15(w));
    }
}
