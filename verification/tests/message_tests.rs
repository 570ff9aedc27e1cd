use turbostroi::message::{Msg, MessageTooLarge, MAX_MESSAGE_SIZE};

#[test]
fn created_message_is_zeroed_with_cursor_at_start() {
    let mut m = Msg::create_msg(4);
    assert_eq!(m.data_len(), Some(4));
    assert_eq!(m.tell(), 0);
    assert_eq!(m.read_data(4), Some(vec![0, 0, 0, 0]));
    assert_eq!(m.tell(), 4);
}

#[test]
fn read_data_stops_at_end() {
    let mut m = Msg::from_data(vec![7, 8, 9]);
    assert_eq!(m.read_data(2), Some(vec![7, 8]));
    assert_eq!(m.tell(), 2);
    assert_eq!(m.read_data(5), Some(vec![9]));
    assert_eq!(m.tell(), 3);
    assert_eq!(m.read_data(1), Some(vec![]));
    assert_eq!(m.tell(), 3);
}

#[test]
fn write_data_is_cut_at_end() {
    let mut m = Msg::create_msg(3);
    m.seek(1);
    m.write_data(&[1, 2, 3, 4]);
    assert_eq!(m.tell(), 3);
    m.seek(0);
    assert_eq!(m.read_data(3), Some(vec![0, 1, 2]));
}

#[test]
fn write_then_read_back() {
    let mut m = Msg::create_msg(8);
    m.seek(2);
    m.write_data(b"abc");
    m.seek(2);
    assert_eq!(m.read_data(3), Some(b"abc".to_vec()));
}

#[test]
fn seek_is_cut_at_end() {
    let mut m = Msg::create_msg(5);
    m.seek(3);
    assert_eq!(m.tell(), 3);
    m.seek(100);
    assert_eq!(m.tell(), 5);
    m.seek(0);
    assert_eq!(m.tell(), 0);
}

#[test]
fn integers_are_little_endian() {
    let mut m = Msg::from_data(vec![0x34, 0x12, 0x00]);
    assert_eq!(m.read_uint16(), Some(0x1234));
    assert_eq!(m.tell(), 2);
    let mut m = Msg::from_data(vec![0x78, 0x56, 0x34, 0x12, 0x00]);
    assert_eq!(m.read_uint32(), Some(0x1234_5678));
    let mut m = Msg::from_data(vec![0xff, 0xff, 0x00]);
    assert_eq!(m.read_int16(), Some(-1));
    let mut m = Msg::from_data(vec![0x00, 0x00, 0x00, 0x80, 0x00]);
    assert_eq!(m.read_int32(), Some(i32::MIN));
    let mut m = Msg::from_data(vec![0x80, 0x00]);
    assert_eq!(m.read_int8(), Some(-128));
    let mut m = Msg::from_data(vec![0xfe, 0x00]);
    assert_eq!(m.read_uint8(), Some(0xfe));
}

#[test]
fn writing_integers_stores_little_endian_bytes() {
    let mut m = Msg::create_msg(5);
    m.write_uint32(0x0102_0304);
    assert_eq!(m.tell(), 4);
    m.seek(0);
    assert_eq!(m.read_data(5), Some(vec![4, 3, 2, 1, 0]));
    let mut m = Msg::create_msg(3);
    m.write_int16(-2);
    m.seek(0);
    assert_eq!(m.read_data(3), Some(vec![0xfe, 0xff, 0]));
}

#[test]
fn integer_round_trips() {
    let mut m = Msg::create_msg(32);
    m.write_int8(-5);
    m.write_int16(-1234);
    m.write_int32(-123_456_789);
    m.write_uint8(200);
    m.write_uint16(60000);
    m.write_uint32(4_000_000_000);
    assert_eq!(m.tell(), 1 + 2 + 4 + 1 + 2 + 4);
    m.seek(0);
    assert_eq!(m.read_int8(), Some(-5));
    assert_eq!(m.read_int16(), Some(-1234));
    assert_eq!(m.read_int32(), Some(-123_456_789));
    assert_eq!(m.read_uint8(), Some(200));
    assert_eq!(m.read_uint16(), Some(60000));
    assert_eq!(m.read_uint32(), Some(4_000_000_000));
}

#[test]
fn float_bits_round_trip() {
    let mut m = Msg::create_msg(8);
    let x: f32 = -3.25;
    m.write_float_bits(x.to_bits());
    m.seek(0);
    let bits = m.read_float_bits().unwrap();
    assert_eq!(f32::from_bits(bits), -3.25);
}

#[test]
fn integer_reads_need_a_byte_after_them() {
    // A value is read or written only while the cursor lies strictly
    // before the last bytes it needs.
    let mut m = Msg::from_data(vec![1, 2]);
    assert_eq!(m.read_uint16(), None);
    assert_eq!(m.tell(), 0);
    m.write_uint16(0xffff);
    assert_eq!(m.tell(), 0);
    assert_eq!(m.read_data(2), Some(vec![1, 2]));
    let mut m = Msg::from_data(vec![1, 2, 3]);
    m.seek(1);
    assert_eq!(m.read_uint16(), None);
    m.seek(0);
    assert_eq!(m.read_uint16(), Some(0x0201));
    assert_eq!(m.read_uint8(), None);
}

#[test]
fn sent_message_is_inert() {
    let mut m = Msg::from_data(vec![1, 2, 3, 4]);
    m.seek(1);
    assert_eq!(m.take_data(), Some(vec![1, 2, 3, 4]));
    assert_eq!(m.data_len(), None);
    assert_eq!(m.take_data(), None);
    assert_eq!(m.read_data(2), None);
    assert_eq!(m.read_uint8(), None);
    assert_eq!(m.read_float_bits(), None);
    m.write_data(&[9]);
    m.write_int32(5);
    m.seek(0);
    assert_eq!(m.tell(), 1);
    assert_eq!(m.read_int16(), None);
}

#[test]
fn create_message_limits() {
    assert!(matches!(Msg::create_message(0), Ok(None)));
    match Msg::create_message(MAX_MESSAGE_SIZE + 1) {
        Err(e) => assert_eq!(e, MessageTooLarge { size: 16 * 1024 * 1024 + 1 }),
        Ok(_) => panic!("a message above 16 MiB was made"),
    }
    match Msg::create_message(3) {
        Ok(Some(mut m)) => {
            assert_eq!(m.data_len(), Some(3));
            assert_eq!(m.read_data(10), Some(vec![0, 0, 0]));
        }
        _ => panic!("a small message was refused"),
    }
    assert_eq!(MAX_MESSAGE_SIZE, 16 * 1024 * 1024);
}

#[test]
fn too_large_message_text() {
    let e = MessageTooLarge { size: 16777217 };
    assert_eq!(e.message(), "Maximum size 16 MB, Entered size: 16777217 bytes");
    assert_eq!(MessageTooLarge { size: 0 }.message(), "Maximum size 16 MB, Entered size: 0 bytes");
    match Msg::create_message(20_000_000) {
        Err(e) => assert_eq!(e.message(), "Maximum size 16 MB, Entered size: 20000000 bytes"),
        Ok(_) => panic!("a message above 16 MiB was made"),
    }
}
