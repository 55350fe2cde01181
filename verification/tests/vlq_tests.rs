use audio_io::vlq::with_variable_length_encoding_bytes;

#[test]
fn vlq_encode_zero() {
    assert_eq!(with_variable_length_encoding_bytes(0), vec![0x00]);
}

#[test]
fn vlq_encode_largest_single_byte() {
    assert_eq!(with_variable_length_encoding_bytes(0x7F), vec![0x7F]);
}

#[test]
fn vlq_encode_smallest_two_byte() {
    assert_eq!(with_variable_length_encoding_bytes(0x80), vec![0x81, 0x00]);
}

#[test]
fn vlq_encode_two_byte_with_zero_terminal() {
    assert_eq!(with_variable_length_encoding_bytes(0x2000), vec![0xC0, 0x00]);
}

#[test]
fn vlq_encode_smallest_three_byte() {
    assert_eq!(with_variable_length_encoding_bytes(0x4000), vec![0x81, 0x80, 0x00]);
}

#[test]
fn vlq_encode_largest_three_byte() {
    assert_eq!(with_variable_length_encoding_bytes(0x1FFFFF), vec![0xFF, 0xFF, 0x7F]);
}

#[test]
fn vlq_encode_maximum() {
    assert_eq!(
        with_variable_length_encoding_bytes(0x0FFF_FFFF),
        vec![0xFF, 0xFF, 0xFF, 0x7F]
    );
}

#[test]
fn vlq_encode_clamps_above_28_bits() {
    assert_eq!(
        with_variable_length_encoding_bytes(0x1000_0000),
        with_variable_length_encoding_bytes(0x0FFF_FFFF)
    );
    assert_eq!(
        with_variable_length_encoding_bytes(u64::MAX),
        vec![0xFF, 0xFF, 0xFF, 0x7F]
    );
}

#[test]
fn vlq_continuation_bits() {
    for x in [0u64, 0x7F, 0x80, 0x3FFF, 0x4000, 0x1FFFFF, 0x200000, 0x0FFF_FFFF] {
        let bytes = with_variable_length_encoding_bytes(x);
        assert!(!bytes.is_empty() && bytes.len() <= 4);
        let (last, rest) = bytes.split_last().unwrap();
        assert!(*last < 0x80);
        for b in rest {
            assert!(*b >= 0x80);
        }
    }
}

#[test]
fn vlq_round_trip_values() {
    for x in [0u64, 1, 0x7F, 0x80, 0x1234, 0xFFFF, 0x123456, 0x0FFF_FFFF] {
        let bytes = with_variable_length_encoding_bytes(x);
        let mut decoded: u64 = 0;
        for b in &bytes {
            decoded = (decoded << 7) | u64::from(b & 0x7F);
        }
        assert_eq!(decoded, x);
    }
}
