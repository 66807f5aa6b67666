use tokio_tcpmux::messages::{ControlMessage, Header};

#[test]
fn header_new_packs_fields() {
    let h = Header::new(ControlMessage::Open, 5, 0);
    assert_eq!(h.0, 21);
    let h = Header::new(ControlMessage::Data, 7, 100);
    assert_eq!(h.0, (100u64 << 32) | (7u64 << 2));
    let h = Header::new(ControlMessage::Close, 0x3fff_ffff, u32::MAX);
    assert_eq!(h.0, u64::MAX);
}

#[test]
fn header_fields_read_back() {
    let h = Header::new(ControlMessage::OpenAck, 123456, 4096);
    assert_eq!(h.control(), ControlMessage::OpenAck);
    assert_eq!(h.stream_id(), 123456);
    assert_eq!(h.data_size(), 4096);
}

#[test]
fn header_stream_id_keeps_thirty_bits() {
    let h = Header::new(ControlMessage::Data, (1u32 << 30) + 3, 9);
    assert_eq!(h.stream_id(), 3);
    assert_eq!(h.control(), ControlMessage::Data);
    assert_eq!(h.data_size(), 9);
}

#[test]
fn header_setters_touch_one_field() {
    let mut h = Header::new(ControlMessage::Data, 42, 77);
    h.set_control(ControlMessage::Close);
    assert_eq!((h.control(), h.stream_id(), h.data_size()), (ControlMessage::Close, 42, 77));
    h.set_stream_id(9);
    assert_eq!((h.control(), h.stream_id(), h.data_size()), (ControlMessage::Close, 9, 77));
    h.set_data_size(1);
    assert_eq!((h.control(), h.stream_id(), h.data_size()), (ControlMessage::Close, 9, 1));
}

#[test]
fn header_from_raw_word() {
    let h = Header(0xffff_ffff_ffff_fffe);
    assert_eq!(h.control(), ControlMessage::OpenAck);
    assert_eq!(h.stream_id(), 0x3fff_ffff);
    assert_eq!(h.data_size(), u32::MAX);
}

#[test]
fn control_codes_round_trip() {
    for (code, msg) in [
        (0u8, ControlMessage::Data),
        (1, ControlMessage::Open),
        (2, ControlMessage::OpenAck),
        (3, ControlMessage::Close),
    ] {
        assert_eq!(ControlMessage::from_bits(code), msg);
        assert_eq!(u8::from(msg), code);
    }
}
