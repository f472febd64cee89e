use anytls::{Command, Frame, HEADER_OVERHEAD_SIZE};
use bytes::Bytes;

#[test]
fn test_command_conversion() {
    assert_eq!(Command::from(0), Command::Waste);
    assert_eq!(Command::from(1), Command::Syn);
    assert_eq!(u8::from(Command::Syn), 1);
}

#[test]
fn test_frame_creation() {
    let frame = Frame::control(Command::Syn, 123);
    assert_eq!(frame.cmd, Command::Syn);
    assert_eq!(frame.stream_id, 123);
    assert!(frame.data.is_empty());
    assert_eq!(frame.total_size(), HEADER_OVERHEAD_SIZE);
}

#[test]
fn test_frame_with_data() {
    let data = Bytes::from("hello");
    let frame = Frame::data(456, data.clone());
    assert_eq!(frame.cmd, Command::Push);
    assert_eq!(frame.stream_id, 456);
    assert_eq!(frame.data, data);
    assert_eq!(frame.total_size(), HEADER_OVERHEAD_SIZE + 5);
}

#[test]
fn command_codes_roundtrip() {
    for code in 0u8..=10 {
        assert_eq!(u8::from(Command::from(code)), code);
    }
    assert_eq!(u8::from(Command::ServerSettings), 10);
    assert_eq!(Command::from(7), Command::SynAck);
    assert_eq!(Command::from(10), Command::ServerSettings);
}

#[test]
fn unknown_command_code_is_waste() {
    assert_eq!(Command::from(11), Command::Waste);
    assert_eq!(Command::from(255), Command::Waste);
}

#[test]
fn new_frame_has_no_payload() {
    let frame = Frame::new(Command::Fin, 9);
    assert_eq!(frame.cmd, Command::Fin);
    assert_eq!(frame.stream_id, 9);
    assert!(frame.is_control());
    assert_eq!(frame.total_size(), 7);
}

#[test]
fn frame_with_data_keeps_payload() {
    let frame = Frame::with_data(Command::Alert, 3, Bytes::from(vec![1u8, 2, 3]));
    assert_eq!(frame.cmd, Command::Alert);
    assert_eq!(frame.stream_id, 3);
    assert!(!frame.is_control());
    assert_eq!(&frame.data[..], &[1u8, 2, 3]);
    assert_eq!(frame.total_size(), 10);
    let copy = frame.clone();
    assert_eq!(copy, frame);
}
