use slcan::decode::decode_line;
use slcan::hex::bytestohex;
use slcan::hex::hextou16;
use slcan::hex::hextou32;
use slcan::hex::u16tohex3;
use slcan::hex::u32tohex8;
use slcan::reassemble::SLCAN_MTU;
use slcan::BitRate;
use slcan::CanFrame;
use slcan::CodecError;
use slcan::Id;
use slcan::Reassembler;

#[test]
fn setup_lines_for_every_bit_rate() {
    let cases = [
        (BitRate::Setup10Kbit, "S0\rO\r"),
        (BitRate::Setup20Kbit, "S1\rO\r"),
        (BitRate::Setup50Kbit, "S2\rO\r"),
        (BitRate::Setup100Kbit, "S3\rO\r"),
        (BitRate::Setup125Kbit, "S4\rO\r"),
        (BitRate::Setup250Kbit, "S5\rO\r"),
        (BitRate::Setup500Kbit, "S6\rO\r"),
        (BitRate::Setup800Kbit, "S7\rO\r"),
        (BitRate::Setup1Mbit, "S8\rO\r"),
    ];
    for (rate, expected) in cases {
        assert_eq!(String::from_utf8(slcan::open_command(rate)).unwrap(), expected.to_string());
        assert_eq!(String::from_utf8(slcan::close_command()).unwrap(), "C\r".to_string());
    }
}

#[test]
fn overflow_self_heals() {
    let mut reassembler = Reassembler::new();

    // More non-delimiter bytes than the buffer holds: the line is dropped,
    // never decoded, and the closing delimiter yields nothing either.
    for _ in 0..(SLCAN_MTU + 12) {
        assert!(reassembler.push_byte(b'A').is_none());
    }
    assert!(reassembler.push_byte(b'\r').is_none());

    // The very next well-formed line decodes normally.
    let mut result = None;
    for b in "t12340B0E0E0F\r".bytes() {
        assert!(result.is_none());
        result = reassembler.push_byte(b);
    }
    let ideal = CanFrame::new(Id::standard(0x123).unwrap(), 4, &[0xB, 0xE, 0xE, 0xF]);
    assert_eq!(result.unwrap().unwrap(), ideal);
}

#[test]
fn short_line_is_discarded() {
    let mut reassembler = Reassembler::new();

    // A delimiter with no bytes buffered produces no frame.
    assert!(reassembler.push_byte(b'\r').is_none());

    // Four bytes then a delimiter: still below the minimum line length.
    for b in "t123".bytes() {
        assert!(reassembler.push_byte(b).is_none());
    }
    assert!(reassembler.push_byte(b'\r').is_none());

    // Five bytes then a delimiter is long enough to reach the decoder.
    let mut result = None;
    for b in "t0BC0\r".bytes() {
        assert!(result.is_none());
        result = reassembler.push_byte(b);
    }
    let ideal = CanFrame::new(Id::standard(0xBC).unwrap(), 0, &[]);
    assert_eq!(result.unwrap().unwrap(), ideal);
}

#[test]
fn bell_aborts_line_in_flight() {
    let mut reassembler = Reassembler::new();

    // A bell discards a complete-looking line instead of decoding it.
    for b in "t12340B0E0E0F".bytes() {
        assert!(reassembler.push_byte(b).is_none());
    }
    assert!(reassembler.push_byte(0x07).is_none());

    // The machine is resynchronized afterwards.
    let mut result = None;
    for b in "t12340B0E0E0F\r".bytes() {
        assert!(result.is_none());
        result = reassembler.push_byte(b);
    }
    let ideal = CanFrame::new(Id::standard(0x123).unwrap(), 4, &[0xB, 0xE, 0xE, 0xF]);
    assert_eq!(result.unwrap().unwrap(), ideal);
}

#[test]
fn decode_rejects_malformed_hex() {
    assert_eq!(decode_line(b"t12G0"), Err(CodecError::MalformedHex));
    // A declared length longer than the line's data is malformed too.
    assert_eq!(decode_line(b"t12340B"), Err(CodecError::MalformedHex));
}

#[test]
fn decode_rejects_out_of_range_identifier() {
    assert_eq!(decode_line(b"t8000"), Err(CodecError::IdentifierOutOfRange));
    assert_eq!(decode_line(b"T2000000000"), Err(CodecError::IdentifierOutOfRange));
}

#[test]
fn decode_rejects_invalid_length_digit() {
    assert_eq!(decode_line(b"t1239"), Err(CodecError::InvalidLength));
    assert_eq!(decode_line(b"t123F"), Err(CodecError::InvalidLength));
}

#[test]
fn decode_skips_non_data_commands() {
    assert_eq!(decode_line(b"X1234"), Err(CodecError::UnsupportedCommand));
    assert_eq!(decode_line(b"S6abc"), Err(CodecError::UnsupportedCommand));
}

#[test]
fn encode_rejects_long_payload() {
    let payload = [0u8; 9];
    assert_eq!(
        slcan::encode_frame(Id::standard(0x123).unwrap(), &payload),
        Err(CodecError::InvalidLength)
    );
}

#[test]
fn identifier_construction_is_range_checked() {
    assert!(Id::standard(0x7FF).is_some());
    assert!(Id::standard(0x800).is_none());
    assert!(Id::extended(0x1FFF_FFFF).is_some());
    assert!(Id::extended(0x2000_0000).is_none());
}

#[test]
fn decode_accepts_lower_case_hex() {
    let frame = decode_line(b"t7ff2beef").unwrap();
    assert_eq!(frame.id, Id::Standard(0x7FF));
    assert_eq!(frame.dlc, 2);
    assert_eq!(frame.data, [0xBE, 0xEF, 0, 0, 0, 0, 0, 0]);
}

#[test]
fn hex_conversions_are_fixed_width() {
    assert_eq!(u16tohex3(0x7FF), *b"7FF");
    assert_eq!(u16tohex3(0x001), *b"001");
    assert_eq!(u32tohex8(0x1FFF_FFFF), *b"1FFFFFFF");
    assert_eq!(u32tohex8(0x0000_0001), *b"00000001");
    assert_eq!(bytestohex(&[0xDE, 0xAD]), b"DEAD".to_vec());
    assert_eq!(hextou16(b"7ff"), Ok(0x7FF));
    assert_eq!(hextou32(b"1abcdef1"), Ok(0x1ABC_DEF1));
    assert_eq!(hextou16(b"7fg"), Err(()));
}

#[test]
fn reassembler_surfaces_line_errors() {
    let mut reassembler = Reassembler::new();

    for b in "S6abc".bytes() {
        assert!(reassembler.push_byte(b).is_none());
    }
    assert_eq!(reassembler.push_byte(b'\r'), Some(Err(CodecError::UnsupportedCommand)));

    // The error was local to its line: the machine starts the next one fresh.
    for b in "t8000".bytes() {
        assert!(reassembler.push_byte(b).is_none());
    }
    assert_eq!(reassembler.push_byte(b'\r'), Some(Err(CodecError::IdentifierOutOfRange)));
}

#[test]
fn frame_payload_is_zero_padded() {
    let frame = CanFrame::new(Id::standard(0x1).unwrap(), 1, &[0xB]);
    assert_eq!(frame.data, [0xB, 0, 0, 0, 0, 0, 0, 0]);
}

#[test]
fn round_trip_through_reassembler() {
    let ids = [
        Id::standard(0x000).unwrap(),
        Id::standard(0x7FF).unwrap(),
        Id::extended(0x0000_0000).unwrap(),
        Id::extended(0x1FFF_FFFF).unwrap(),
    ];
    let payload = [0x00, 0x11, 0xAB, 0xCD, 0xEF, 0x55, 0xAA, 0xFF];
    for id in ids {
        for len in 0..=8usize {
            let line = slcan::encode_frame(id, &payload[..len]).unwrap();
            let mut reassembler = Reassembler::new();
            let mut result = None;
            for b in line {
                assert!(result.is_none());
                result = reassembler.push_byte(b);
            }
            let frame = result.unwrap().unwrap();
            assert_eq!(frame, CanFrame::new(id, len, &payload[..len]));
        }
    }
}
