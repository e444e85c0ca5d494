use slcan::BitRate;
use slcan::CanFrame;
use slcan::Id;
use slcan::Reassembler;

#[test]
fn it_works() {
    assert_eq!(2 + 2, 4);
}

#[test]
fn open() {
    let line = slcan::open_command(BitRate::Setup500Kbit);
    assert_eq!(String::from_utf8(line).unwrap(), "S6\rO\r".to_string());
}

#[test]
fn close() {
    let line = slcan::close_command();
    assert_eq!(String::from_utf8(line).unwrap(), "C\r".to_string());
}

#[test]
fn write_std() {
    let line = slcan::encode_frame(Id::standard(0x123).unwrap(), &[0xB, 0xE, 0xE, 0xF]).unwrap();
    assert_eq!(String::from_utf8(line).unwrap(), "t12340B0E0E0F\r".to_string());

    let line = slcan::encode_frame(Id::standard(0xBC).unwrap(), &[]).unwrap();
    assert_eq!(String::from_utf8(line).unwrap(), "t0BC0\r".to_string());
}

#[test]
fn write_ext() {
    let line =
        slcan::encode_frame(Id::extended(0x1ABC_DEF1).unwrap(), &[0xB, 0xE, 0xE, 0xF]).unwrap();
    assert_eq!(String::from_utf8(line).unwrap(), "T1ABCDEF140B0E0E0F\r".to_string());

    let line = slcan::encode_frame(Id::extended(0x1ABC_DEF1).unwrap(), &[]).unwrap();
    assert_eq!(String::from_utf8(line).unwrap(), "T1ABCDEF10\r".to_string());
}

#[test]
fn read_std() {
    let mut reassembler = Reassembler::new();

    let mut result = None;
    for b in "t12340B0E0E0F\r".bytes() {
        // Nothing is produced before the delimiter arrives.
        assert!(result.is_none());
        result = reassembler.push_byte(b);
    }
    let ideal = CanFrame::new(Id::standard(0x123).unwrap(), 4, &[0xB, 0xE, 0xE, 0xF]);
    assert_eq!(result.unwrap().unwrap(), ideal);

    let mut result = None;
    for b in "t0BC0\r".bytes() {
        assert!(result.is_none());
        result = reassembler.push_byte(b);
    }
    let ideal = CanFrame::new(Id::standard(0xBC).unwrap(), 0, &[]);
    assert_eq!(result.unwrap().unwrap(), ideal);
}

#[test]
fn read_ext() {
    let mut reassembler = Reassembler::new();

    let mut result = None;
    for b in "T1ABCDEF140B0E0E0F\r".bytes() {
        assert!(result.is_none());
        result = reassembler.push_byte(b);
    }
    let ideal = CanFrame::new(Id::extended(0x1ABC_DEF1).unwrap(), 4, &[0xB, 0xE, 0xE, 0xF]);
    assert_eq!(result.unwrap().unwrap(), ideal);

    let mut result = None;
    for b in "T1ABCDEF10\r".bytes() {
        assert!(result.is_none());
        result = reassembler.push_byte(b);
    }
    let ideal = CanFrame::new(Id::extended(0x1ABC_DEF1).unwrap(), 0, &[]);
    assert_eq!(result.unwrap().unwrap(), ideal);
}
