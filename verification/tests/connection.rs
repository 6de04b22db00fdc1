use resp_server::connection::Step;
use bytes::Bytes;
use resp_server::connection::{Closing, ReadBuffer};
use resp_server::frame::{encode, Frame, FrameError};

fn ping() -> Frame {
    Frame::Array(vec![Frame::Bulk(Bytes::copy_from_slice(b"PING"))])
}

#[test]
fn empty_buffer_closes_cleanly() {
    let mut buf = ReadBuffer::new();
    assert_eq!(buf.len(), 0);
    assert_eq!(buf.next_frame(), Ok(None));
    assert_eq!(buf.at_eof(), Closing::Clean);
}

#[test]
fn frame_split_in_two_reads_arrives_whole() {
    let bytes = encode(&ping());
    for cut in 0..bytes.len() {
        let mut buf = ReadBuffer::new();
        buf.feed(&bytes[..cut]);
        assert_eq!(buf.next_frame(), Ok(None));
        assert_eq!(buf.len(), cut);
        buf.feed(&bytes[cut..]);
        assert_eq!(buf.next_frame(), Ok(Some(ping())));
        assert_eq!(buf.len(), 0);
        assert_eq!(buf.at_eof(), Closing::Clean);
    }
}

#[test]
fn frames_come_out_in_arrival_order() {
    let mut buf = ReadBuffer::new();
    buf.feed(b"+one\r\n:2\r\n$5\r\nth");
    assert_eq!(buf.next_frame(), Ok(Some(Frame::Simple("one".to_string()))));
    assert_eq!(buf.len(), 10);
    assert_eq!(buf.next_frame(), Ok(Some(Frame::Integer(2))));
    assert_eq!(buf.next_frame(), Ok(None));
    assert_eq!(buf.at_eof(), Closing::ResetByPeer);
    buf.feed(b"ree\r\n");
    assert_eq!(buf.next_frame(), Ok(Some(Frame::Bulk(Bytes::copy_from_slice(b"three")))));
    assert_eq!(buf.at_eof(), Closing::Clean);
}

#[test]
fn refused_bytes_stay_in_the_buffer() {
    let mut buf = ReadBuffer::new();
    buf.feed(b"!bad\r\n");
    assert_eq!(buf.next_frame(), Err(FrameError::Malformed));
    assert_eq!(buf.len(), 6);
}

#[test]
fn step_looks_at_shutdown_between_frames() {
    let mut buf = ReadBuffer::new();
    buf.feed(b"+one\r\n+two\r\n+thr");
    assert!(matches!(buf.step(false), Step::Dispatch(f) if f == Frame::Simple("one".to_string())));
    assert!(matches!(buf.step(true), Step::Close(Closing::Shutdown)));
    assert_eq!(buf.len(), 10);
    assert!(matches!(buf.step(false), Step::Dispatch(f) if f == Frame::Simple("two".to_string())));
    assert!(matches!(buf.step(false), Step::Read));
    assert_eq!(buf.len(), 4);
    let mut bad = ReadBuffer::new();
    bad.feed(b"*x\r\n");
    assert!(matches!(bad.step(false), Step::Close(Closing::Malformed)));
    assert!(matches!(bad.step(true), Step::Close(Closing::Shutdown)));
}
