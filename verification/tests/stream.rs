use anytls::session::stream::write_outcome;
use anytls::{Stream, StreamWriteError};
use bytes::Bytes;
use tokio::sync::mpsc;

fn new_stream(id: u32) -> (Stream, mpsc::UnboundedSender<Bytes>, mpsc::UnboundedReceiver<(u32, Bytes)>) {
    let (in_tx, in_rx) = mpsc::unbounded_channel();
    let (out_tx, out_rx) = mpsc::unbounded_channel();
    (Stream::new(id, in_rx, out_tx), in_tx, out_rx)
}

#[test]
fn new_stream_is_open_and_empty() {
    let (stream, _in, _out) = new_stream(7);
    assert_eq!(stream.id(), 7);
    assert!(!stream.is_closed());
    assert!(!stream.has_buffered());
}

#[test]
fn data_beyond_the_read_waits_in_order() {
    let (mut stream, _in, _out) = new_stream(1);
    let mut buf = [0u8; 5];
    assert_eq!(stream.store_in_buffer(Bytes::from("hello world"), &mut buf), 5);
    assert_eq!(&buf, b"hello");
    assert!(stream.has_buffered());
    let mut buf = [0u8; 4];
    assert_eq!(stream.try_read_from_buffer(&mut buf), 4);
    assert_eq!(&buf, b" wor");
    let mut buf = [9u8; 10];
    assert_eq!(stream.try_read_from_buffer(&mut buf), 2);
    assert_eq!(&buf[..2], b"ld");
    assert_eq!(&buf[2..], &[9u8; 8]);
    assert!(!stream.has_buffered());
    assert_eq!(stream.try_read_from_buffer(&mut buf), 0);
}

#[test]
fn short_data_fits_the_read() {
    let (mut stream, _in, _out) = new_stream(1);
    let mut buf = [0u8; 8];
    assert_eq!(stream.store_in_buffer(Bytes::from("abc"), &mut buf), 3);
    assert_eq!(&buf[..3], b"abc");
    assert!(!stream.has_buffered());
}

#[test]
fn writes_go_to_the_session_with_the_stream_id() {
    let (mut stream, _in, mut out) = new_stream(42);
    assert_eq!(stream.write_data(b"ping"), Ok(4));
    let (id, data) = out.try_recv().unwrap();
    assert_eq!(id, 42);
    assert_eq!(&data[..], b"ping");
}

#[test]
fn closed_stream_refuses_writes() {
    let (mut stream, _in, _out) = new_stream(3);
    stream.close_locally();
    assert!(stream.is_closed());
    assert_eq!(stream.write_data(b"x"), Err(StreamWriteError::Closed));
}

#[test]
fn write_fails_when_session_is_gone() {
    let (mut stream, _in, out) = new_stream(3);
    drop(out);
    assert_eq!(stream.write_data(b"x"), Err(StreamWriteError::ChannelClosed));
}

#[test]
fn only_the_first_close_wins() {
    let (stream, _in, _out) = new_stream(3);
    assert!(stream.mark_closed());
    assert!(!stream.mark_closed());
    assert!(stream.is_closed());
}

#[test]
fn receiver_hands_out_session_data() {
    let (mut stream, input, _out) = new_stream(3);
    input.send(Bytes::from("data")).unwrap();
    let got = stream.receiver().try_recv().unwrap();
    assert_eq!(&got[..], b"data");
}

#[test]
fn write_outcome_names_the_refusal() {
    assert_eq!(write_outcome(true, true, 5), Err(StreamWriteError::Closed));
    assert_eq!(write_outcome(true, false, 5), Err(StreamWriteError::Closed));
    assert_eq!(write_outcome(false, false, 5), Err(StreamWriteError::ChannelClosed));
    assert_eq!(write_outcome(false, true, 5), Ok(5));
}

#[test]
fn hello_write_reaches_the_session_once() {
    let (mut stream, _in, mut out) = new_stream(1);
    assert_eq!(stream.write_data(b"hello"), Ok(5));
    let (id, data) = out.try_recv().unwrap();
    assert_eq!(id, 1);
    assert_eq!(data, Bytes::from("hello"));
    assert!(out.try_recv().is_err());
}

#[test]
fn outgoing_message_copies_the_bytes() {
    let (stream, _in, _out) = new_stream(9);
    let (id, data) = stream.outgoing_message(b"abc");
    assert_eq!(id, 9);
    assert_eq!(&data[..], b"abc");
    let (_, empty) = stream.outgoing_message(b"");
    assert!(empty.is_empty());
}

#[test]
fn read_buffered_hands_out_the_buffer_first() {
    let (mut stream, _in, _out) = new_stream(1);
    let mut buf = [0u8; 3];
    assert_eq!(stream.read_buffered(&mut buf), None);
    assert_eq!(buf, [0u8; 3]);
    assert_eq!(stream.store_in_buffer(Bytes::from("abcdef"), &mut buf), 3);
    assert_eq!(stream.read_buffered(&mut buf), Some(3));
    assert_eq!(&buf, b"def");
    assert_eq!(stream.read_buffered(&mut buf), None);
    // A read with no room still finds the buffer first.
    assert_eq!(stream.store_in_buffer(Bytes::from("xyzw"), &mut buf), 3);
    let mut none: [u8; 0] = [];
    assert_eq!(stream.read_buffered(&mut none), Some(0));
    assert!(stream.has_buffered());
}

#[test]
fn stored_chunk_drains_back_whole() {
    let (mut stream, _in, _out) = new_stream(1);
    let chunk: Vec<u8> = (0u8..=200).collect();
    let mut first = [0u8; 7];
    let n = stream.store_in_buffer(Bytes::from(chunk.clone()), &mut first);
    let mut got: Vec<u8> = first[..n].to_vec();
    let mut small = [0u8; 11];
    loop {
        let m = stream.try_read_from_buffer(&mut small);
        if m == 0 {
            break;
        }
        got.extend_from_slice(&small[..m]);
    }
    assert_eq!(got, chunk);
    assert!(!stream.has_buffered());
}
