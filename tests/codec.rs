use decimal_rs::{CodecError, Decimal, ENCODED_LEN};

fn encode(d: &Decimal) -> Vec<u8> {
    let mut out = Vec::new();
    d.write_to(&mut out);
    out
}

#[test]
fn test_speedy() {
    let mut buf = [0u8; 256];
    let dec = Decimal::from_parts_unchecked(123456, 3, false);

    dec.write_to_buffer(&mut buf).unwrap();
    let dec2 = Decimal::read_from_buffer(&buf).unwrap();
    assert_eq!(dec, dec2);
}

#[test]
fn encodes_123_456_field_by_field() {
    let dec = Decimal::from_parts_unchecked(123456, 3, false);
    let bytes = encode(&dec);
    assert_eq!(bytes.len(), 19);
    let mut mag = [0u8; 16];
    mag.copy_from_slice(&bytes[0..16]);
    assert_eq!(u128::from_le_bytes(mag), 123456);
    assert_eq!(i16::from_le_bytes([bytes[16], bytes[17]]), 3);
    assert_eq!(bytes[18], 0x00);
    assert_eq!(
        bytes,
        vec![0x40, 0xE2, 0x01, 0, 0, 0, 0, 0, 0, 0, 0, 0, 0, 0, 0, 0, 3, 0, 0]
    );
    let back = Decimal::read_from_buffer(&bytes).unwrap();
    assert_eq!(back.magnitude(), 123456);
    assert_eq!(back.scale(), 3);
    assert!(!back.is_negative());
}

#[test]
fn round_trips_extremes() {
    let cases = [
        (0u128, 0i16, false),
        (0, 0, true),
        (u128::MAX, i16::MIN, true),
        (u128::MAX, i16::MAX, false),
        (1, -1, true),
        (0x0102_0304_0506_0708_090A_0B0C_0D0E_0F10, -300, false),
    ];
    for (m, s, n) in cases {
        let dec = Decimal::from_parts_unchecked(m, s, n);
        let bytes = encode(&dec);
        assert_eq!(bytes.len(), ENCODED_LEN);
        assert_eq!(bytes.len(), dec.bytes_needed());
        let back = Decimal::read_from_buffer(&bytes).unwrap();
        assert_eq!(back, dec);
        assert_eq!(back.magnitude(), m);
        assert_eq!(back.scale(), s);
        assert_eq!(back.is_negative(), n);
    }
}

#[test]
fn encodes_negative_scale_and_sign() {
    let dec = Decimal::from_parts_unchecked(u128::MAX, -2, true);
    let bytes = encode(&dec);
    assert_eq!(&bytes[0..16], &[0xFF; 16]);
    assert_eq!(bytes[16], 0xFE);
    assert_eq!(bytes[17], 0xFF);
    assert_eq!(bytes[18], 0x01);
}

#[test]
fn negative_zero_decodes_to_zero() {
    let dec = Decimal::from_parts_unchecked(0, 7, true);
    let back = Decimal::read_from_buffer(&encode(&dec)).unwrap();
    assert!(back.is_zero());
    assert_eq!(back.magnitude(), 0);
    assert_eq!(back.scale(), 7);
}

#[test]
fn every_nineteen_bytes_decode() {
    let bytes = [0xABu8; 19];
    let d = Decimal::read_from_buffer(&bytes).unwrap();
    assert_eq!(d.magnitude(), u128::from_le_bytes([0xAB; 16]));
    assert_eq!(d.scale(), i16::from_le_bytes([0xAB, 0xAB]));
    assert!(d.is_negative());
    let zeros = [0u8; 19];
    let z = Decimal::read_from_buffer(&zeros).unwrap();
    assert_eq!(z, Decimal::from_parts_unchecked(0, 0, false));
}

#[test]
fn short_input_is_insufficient() {
    let dec = Decimal::from_parts_unchecked(42, 1, false);
    let bytes = encode(&dec);
    for n in 0..19 {
        assert_eq!(
            Decimal::read_from_buffer(&bytes[..n]),
            Err(CodecError::InsufficientInput)
        );
    }
}

#[test]
fn read_from_advances_position() {
    let a = Decimal::from_parts_unchecked(5, 0, false);
    let b = Decimal::from_parts_unchecked(6, 2, true);
    let mut bytes = vec![0xEEu8];
    a.write_to(&mut bytes);
    b.write_to(&mut bytes);
    assert_eq!(bytes.len(), 1 + 2 * 19);
    let mut pos = 1usize;
    assert_eq!(Decimal::read_from(&bytes, &mut pos), Ok(a));
    assert_eq!(pos, 20);
    assert_eq!(Decimal::read_from(&bytes, &mut pos), Ok(b));
    assert_eq!(pos, 39);
    assert_eq!(
        Decimal::read_from(&bytes, &mut pos),
        Err(CodecError::InsufficientInput)
    );
    assert_eq!(pos, 39);
    let mut far = 100usize;
    assert_eq!(
        Decimal::read_from(&bytes, &mut far),
        Err(CodecError::InsufficientInput)
    );
    assert_eq!(far, 100);
}

#[test]
fn short_buffer_is_rejected_unchanged() {
    let dec = Decimal::from_parts_unchecked(9, 9, true);
    let mut buf = [7u8; 18];
    assert_eq!(dec.write_to_buffer(&mut buf), Err(CodecError::DestinationCapacity));
    assert_eq!(buf, [7u8; 18]);
}

#[test]
fn buffer_write_keeps_tail() {
    let dec = Decimal::from_parts_unchecked(1, 0, true);
    let mut buf = [9u8; 21];
    dec.write_to_buffer(&mut buf).unwrap();
    assert_eq!(&buf[..19], &encode(&dec)[..]);
    assert_eq!(buf[19], 9);
    assert_eq!(buf[20], 9);
}

#[test]
fn widths_are_nineteen() {
    assert_eq!(ENCODED_LEN, 19);
    assert_eq!(Decimal::minimum_bytes_needed(), 19);
    assert_eq!(Decimal::from_parts_unchecked(0, 0, false).bytes_needed(), 19);
}
