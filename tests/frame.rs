use plotter::frame::{decode_frame, encode_frame, Sample, FRAME_LEN};

#[test]
fn decodes_fields_of_a_frame() {
    let bytes = [0x05u8, 0x8a, 0x04, 0x03, 0x02, 0x01];
    let s = decode_frame(&bytes).unwrap();
    assert_eq!(s.reading, 325);
    assert!(!s.digital);
    assert_eq!(s.timestamp, 0x0208_1840);
}

#[test]
fn decodes_digital_flag_and_full_reading() {
    let bytes = [0x1fu8, 0xdf, 0x7f, 0x7f, 0x7f, 0x7f];
    let s = decode_frame(&bytes).unwrap();
    assert_eq!(s.reading, 1023);
    assert!(s.digital);
    assert_eq!(s.timestamp, 0xffff_fff0);
}

#[test]
fn frame_without_sync_is_rejected() {
    let bytes = [0x1fu8, 0x5f, 0x7f, 0x7f, 0x7f, 0x7f];
    assert_eq!(decode_frame(&bytes), None);
}

#[test]
fn short_frame_is_rejected() {
    let bytes = [0x1fu8, 0xdf, 0x7f, 0x7f, 0x7f];
    assert_eq!(decode_frame(&bytes), None);
    assert_eq!(decode_frame(&[]), None);
}

#[test]
fn encodes_known_bytes() {
    let s = Sample { reading: 1023, digital: true, timestamp: 0xffff_fff0 };
    assert_eq!(encode_frame(&s), vec![0x1f, 0xdf, 0x7f, 0x7f, 0x7f, 0x7f]);
    let s = Sample { reading: 325, digital: false, timestamp: 0x0208_1840 };
    assert_eq!(encode_frame(&s), vec![0x05, 0x8a, 0x04, 0x03, 0x02, 0x01]);
}

#[test]
fn encode_drops_what_a_frame_cannot_carry() {
    let s = Sample { reading: 1024 + 7, digital: false, timestamp: 0x1234_567f };
    let back = decode_frame(&encode_frame(&s)).unwrap();
    assert_eq!(back.reading, 7);
    assert_eq!(back.timestamp, 0x1234_5670);
}

#[test]
fn round_trip_over_many_samples() {
    let mut t: u32 = 0;
    for reading in 0..1024u16 {
        for digital in [false, true] {
            let s = Sample { reading, digital, timestamp: t };
            let bytes = encode_frame(&s);
            assert_eq!(bytes.len(), FRAME_LEN);
            assert_eq!(decode_frame(&bytes), Some(s));
            t = t.wrapping_add(0x0004_1230);
        }
    }
    let s = Sample { reading: 0, digital: false, timestamp: 0 };
    assert_eq!(decode_frame(&encode_frame(&s)), Some(s));
}

#[test]
fn analog_value_is_flipped_reading() {
    let s = Sample { reading: 24, digital: false, timestamp: 0 };
    assert_eq!(s.analog(), 1000);
    let s = Sample { reading: 0, digital: false, timestamp: 0 };
    assert_eq!(s.analog(), 1024);
}
