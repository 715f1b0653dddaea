use plc_modbus::codec::{decode_bool, decode_dword, decode_float_bits, decode_word, encode_dword, encode_float_bits, ShortFrame};

#[test]
fn dword_word_order_on_encode() {
    assert_eq!(encode_dword(0xAABBCCDD), vec![0xCCDD, 0xAABB]);
}

#[test]
fn dword_word_order_on_decode() {
    assert_eq!(decode_dword(&vec![0xCCDD, 0xAABB]), Ok(0xAABBCCDD));
}

#[test]
fn dword_round_trip_on_samples() {
    for v in [0u32, 1, 0xFFFF, 0x10000, 0x1234_5678, u32::MAX] {
        assert_eq!(decode_dword(&encode_dword(v)), Ok(v));
    }
}

#[test]
fn float_round_trip_keeps_bits() {
    for x in [0.0f32, -0.0, 1.0, -2.5, f32::MAX, f32::MIN_POSITIVE, f32::INFINITY] {
        let back = decode_float_bits(&encode_float_bits(x.to_bits())).unwrap();
        assert_eq!(f32::from_bits(back).to_bits(), x.to_bits());
    }
}

#[test]
fn float_round_trip_keeps_nan_payload() {
    let nan = f32::from_bits(0x7FC0_1234);
    let back = decode_float_bits(&encode_float_bits(nan.to_bits())).unwrap();
    assert_eq!(back, 0x7FC0_1234);
}

#[test]
fn float_one_is_split_low_word_first() {
    assert_eq!(encode_float_bits(1.0f32.to_bits()), vec![0x0000, 0x3F80]);
}

#[test]
fn short_frames_are_reported() {
    assert_eq!(decode_dword(&vec![0x1234]), Err(ShortFrame { needed: 2, got: 1 }));
    assert_eq!(decode_word(&vec![]), Err(ShortFrame { needed: 1, got: 0 }));
    assert_eq!(decode_bool(&vec![]), Err(ShortFrame { needed: 1, got: 0 }));
}

#[test]
fn single_values_take_the_first_entry() {
    assert_eq!(decode_word(&vec![0xBEEF, 1]), Ok(0xBEEF));
    assert_eq!(decode_bool(&vec![true, false]), Ok(true));
    assert_eq!(decode_dword(&vec![0x0001, 0x0002, 0x0003]), Ok(0x0002_0001));
}
