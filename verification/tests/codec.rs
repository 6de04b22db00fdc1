use resp_server::roundtrip::{carries, encode_checked, has_no_crlf};
use bytes::Bytes;
use resp_server::frame::{decode, encode, encode_into, Frame, FrameError};

fn bulk(s: &str) -> Frame {
    Frame::Bulk(Bytes::copy_from_slice(s.as_bytes()))
}

fn sample() -> Frame {
    Frame::Array(vec![
        Frame::Simple("OK".to_string()),
        Frame::Error("ERR no".to_string()),
        Frame::Integer(-42),
        bulk("hello"),
        Frame::Null,
        Frame::Array(vec![bulk(""), Frame::Integer(0), Frame::Array(vec![])]),
    ])
}

#[test]
fn encodes_simple() {
    assert_eq!(encode(&Frame::Simple("OK".to_string())), b"+OK\r\n".to_vec());
}

#[test]
fn encodes_error() {
    assert_eq!(encode(&Frame::Error("ERR x".to_string())), b"-ERR x\r\n".to_vec());
}

#[test]
fn encodes_integers() {
    assert_eq!(encode(&Frame::Integer(0)), b":0\r\n".to_vec());
    assert_eq!(encode(&Frame::Integer(1234567890)), b":1234567890\r\n".to_vec());
    assert_eq!(encode(&Frame::Integer(-42)), b":-42\r\n".to_vec());
    assert_eq!(encode(&Frame::Integer(i64::MAX)), b":9223372036854775807\r\n".to_vec());
    assert_eq!(encode(&Frame::Integer(i64::MIN)), b":-9223372036854775808\r\n".to_vec());
}

#[test]
fn encodes_bulk_and_null() {
    assert_eq!(encode(&bulk("hello")), b"$5\r\nhello\r\n".to_vec());
    assert_eq!(encode(&bulk("")), b"$0\r\n\r\n".to_vec());
    assert_eq!(encode(&bulk("0123456789ab")), b"$12\r\n0123456789ab\r\n".to_vec());
    assert_eq!(encode(&Frame::Null), b"$-1\r\n".to_vec());
}

#[test]
fn encodes_arrays() {
    let f = Frame::Array(vec![bulk("GET"), bulk("key")]);
    assert_eq!(encode(&f), b"*2\r\n$3\r\nGET\r\n$3\r\nkey\r\n".to_vec());
    assert_eq!(encode(&Frame::Array(vec![])), b"*0\r\n".to_vec());
}

#[test]
fn encode_into_appends() {
    let mut out = b"+A\r\n".to_vec();
    encode_into(&Frame::Integer(7), &mut out);
    assert_eq!(out, b"+A\r\n:7\r\n".to_vec());
}

#[test]
fn decodes_each_kind() {
    assert_eq!(decode(b"+OK\r\n"), Ok(Some((Frame::Simple("OK".to_string()), 5))));
    assert_eq!(decode(b"-ERR x\r\n"), Ok(Some((Frame::Error("ERR x".to_string()), 8))));
    assert_eq!(decode(b":-42\r\n"), Ok(Some((Frame::Integer(-42), 6))));
    assert_eq!(decode(b":9223372036854775807\r\n"), Ok(Some((Frame::Integer(i64::MAX), 22))));
    assert_eq!(decode(b":-9223372036854775808\r\n"), Ok(Some((Frame::Integer(i64::MIN), 23))));
    assert_eq!(decode(b"$5\r\nhello\r\n"), Ok(Some((bulk("hello"), 11))));
    assert_eq!(decode(b"$-1\r\n"), Ok(Some((Frame::Null, 5))));
    assert_eq!(
        decode(b"*2\r\n$3\r\nGET\r\n$3\r\nkey\r\n"),
        Ok(Some((Frame::Array(vec![bulk("GET"), bulk("key")]), 22)))
    );
}

#[test]
fn decode_leaves_what_follows_a_frame() {
    assert_eq!(decode(b"+OK\r\n+NEXT\r\n"), Ok(Some((Frame::Simple("OK".to_string()), 5))));
    assert_eq!(decode(b"$2\r\n\r\n\r\n:1\r\n"), Ok(Some((bulk("\r\n"), 8))));
}

#[test]
fn decode_keeps_a_lone_carriage_return_in_a_line() {
    assert_eq!(decode(b"+a\rb\r\n"), Ok(Some((Frame::Simple("a\rb".to_string()), 6))));
}

#[test]
fn decode_round_trips() {
    let f = sample();
    let bytes = encode(&f);
    assert_eq!(decode(&bytes), Ok(Some((sample(), bytes.len()))));
    let mut longer = bytes.clone();
    longer.extend_from_slice(b"*1\r\n");
    assert_eq!(decode(&longer), Ok(Some((sample(), bytes.len()))));
}

#[test]
fn decode_round_trips_text_beyond_ascii() {
    let f = Frame::Simple("h\u{e9}llo \u{4e16}\u{754c}".to_string());
    let bytes = encode(&f);
    assert_eq!(bytes.len(), 1 + 13 + 2);
    assert_eq!(decode(&bytes), Ok(Some((f, bytes.len()))));
}

#[test]
fn every_proper_prefix_is_incomplete() {
    let bytes = encode(&sample());
    for cut in 0..bytes.len() {
        assert_eq!(decode(&bytes[..cut]), Ok(None), "cut at {}", cut);
    }
}

#[test]
fn empty_buffer_is_incomplete() {
    assert_eq!(decode(b""), Ok(None));
}

#[test]
fn bulk_waits_for_its_terminator() {
    assert_eq!(decode(b"$5\r\nhello"), Ok(None));
    assert_eq!(decode(b"$5\r\nhello\r"), Ok(None));
    assert_eq!(decode(b"$5\r\nhelloXY"), Err(FrameError::Malformed));
}

#[test]
fn malformed_inputs_are_refused() {
    assert_eq!(decode(b"?what\r\n"), Err(FrameError::Malformed));
    assert_eq!(decode(b"*-1\r\n"), Err(FrameError::Malformed));
    assert_eq!(decode(b"$abc\r\n"), Err(FrameError::Malformed));
    assert_eq!(decode(b"*x\r\n"), Err(FrameError::Malformed));
    assert_eq!(decode(b"$\r\n"), Err(FrameError::Malformed));
    assert_eq!(decode(b":12a\r\n"), Err(FrameError::Malformed));
    assert_eq!(decode(b":\r\n"), Err(FrameError::Malformed));
    assert_eq!(decode(b":9223372036854775808\r\n"), Err(FrameError::Malformed));
    assert_eq!(decode(b":-9223372036854775809\r\n"), Err(FrameError::Malformed));
    assert_eq!(decode(b":99999999999999999999999\r\n"), Err(FrameError::Malformed));
    assert_eq!(decode(b"+\xff\xfe\r\n"), Err(FrameError::Malformed));
    assert_eq!(decode(b"-\xc3\r\n"), Err(FrameError::Malformed));
    assert_eq!(decode(b"*1\r\n?\r\n"), Err(FrameError::Malformed));
}

#[test]
fn bulk_payload_is_not_read_as_text() {
    let f = Frame::Bulk(Bytes::copy_from_slice(&[0xff, 0x00, 0x0d, 0x0a, 0x80]));
    let bytes = encode(&f);
    assert_eq!(bytes, b"$5\r\n\xff\x00\r\n\x80\r\n".to_vec());
    assert_eq!(decode(&bytes), Ok(Some((f, 11))));
}

#[test]
fn text_with_a_line_terminator_does_not_round_trip() {
    let f = Frame::Simple("a\r\nb".to_string());
    let bytes = encode(&f);
    assert_eq!(decode(&bytes), Ok(Some((Frame::Simple("a".to_string()), 4))));
}

#[test]
fn wire_carries_what_round_trips() {
    assert!(has_no_crlf(b""));
    assert!(has_no_crlf(b"\r"));
    assert!(has_no_crlf(b"a\rb\nc\n\r"));
    assert!(!has_no_crlf(b"\r\n"));
    assert!(!has_no_crlf(b"ab\r\ncd"));
    assert!(carries(&sample()));
    assert!(carries(&Frame::Simple("a\rb".to_string())));
    assert!(!carries(&Frame::Simple("a\r\nb".to_string())));
    assert!(!carries(&Frame::Error("\r\n".to_string())));
    assert!(carries(&bulk("a\r\nb")));
    assert!(!carries(&Frame::Array(vec![
        Frame::Integer(1),
        Frame::Array(vec![Frame::Null, Frame::Error("x\r\ny".to_string())]),
    ])));
}

#[test]
fn encode_checked_refuses_what_would_not_come_back() {
    assert_eq!(encode_checked(&Frame::Simple("OK".to_string())), Some(b"+OK\r\n".to_vec()));
    assert_eq!(encode_checked(&sample()), Some(encode(&sample())));
    assert_eq!(encode_checked(&Frame::Simple("a\r\nb".to_string())), None);
    assert_eq!(encode_checked(&Frame::Array(vec![Frame::Error("\r\n".to_string())])), None);
}
