use bytes::Bytes;
use resp_server::frame::Frame;
use resp_server::parse::{text_eq, Parse, ParseError};

fn bulk(s: &[u8]) -> Frame {
    Frame::Bulk(Bytes::copy_from_slice(s))
}

fn cursor(fields: Vec<Frame>) -> Parse {
    match Parse::new(Frame::Array(fields)) {
        Ok(p) => p,
        Err(e) => panic!("no cursor: {:?}", e),
    }
}

#[test]
fn cursor_needs_an_array() {
    assert!(matches!(Parse::new(Frame::Null), Err(ParseError::NotAnArray)));
    assert!(matches!(Parse::new(Frame::Simple("x".to_string())), Err(ParseError::NotAnArray)));
    assert!(matches!(Parse::new(Frame::Integer(1)), Err(ParseError::NotAnArray)));
    assert!(Parse::new(Frame::Array(vec![])).is_ok());
}

#[test]
fn next_string_reads_simple_and_bulk() {
    let mut p = cursor(vec![Frame::Simple("one".to_string()), bulk(b"two")]);
    assert_eq!(p.next_string(), Ok("one".to_string()));
    assert_eq!(p.next_string(), Ok("two".to_string()));
    assert_eq!(p.next_string(), Err(ParseError::EndOfStream));
    assert_eq!(p.next_string(), Err(ParseError::EndOfStream));
}

#[test]
fn next_string_refuses_other_kinds_and_moves_on() {
    let mut p = cursor(vec![Frame::Integer(1), Frame::Null, bulk(&[0xff]), bulk(b"ok")]);
    assert_eq!(p.next_string(), Err(ParseError::WrongType));
    assert_eq!(p.next_string(), Err(ParseError::WrongType));
    assert_eq!(p.next_string(), Err(ParseError::InvalidText));
    assert_eq!(p.next_string(), Ok("ok".to_string()));
    assert_eq!(p.finish(), Ok(()));
}

#[test]
fn next_bytes_reads_simple_and_bulk() {
    let mut p = cursor(vec![Frame::Simple("h\u{e9}".to_string()), bulk(&[0xff, 0x00]), Frame::Integer(3)]);
    assert_eq!(p.next_bytes(), Ok(Bytes::copy_from_slice(&[0x68, 0xc3, 0xa9])));
    assert_eq!(p.next_bytes(), Ok(Bytes::copy_from_slice(&[0xff, 0x00])));
    assert_eq!(p.next_bytes(), Err(ParseError::WrongType));
    assert_eq!(p.next_bytes(), Err(ParseError::EndOfStream));
}

#[test]
fn next_int_reads_integers_and_digits() {
    let mut p = cursor(vec![
        Frame::Integer(42),
        bulk(b"18446744073709551615"),
        bulk(b"007"),
        Frame::Integer(-1),
        bulk(b"18446744073709551616"),
        bulk(b"12x"),
        bulk(b""),
        bulk(b"-5"),
        Frame::Simple("5".to_string()),
    ]);
    assert_eq!(p.next_int(), Ok(42));
    assert_eq!(p.next_int(), Ok(u64::MAX));
    assert_eq!(p.next_int(), Ok(7));
    assert_eq!(p.next_int(), Err(ParseError::InvalidNumber));
    assert_eq!(p.next_int(), Err(ParseError::InvalidNumber));
    assert_eq!(p.next_int(), Err(ParseError::InvalidNumber));
    assert_eq!(p.next_int(), Err(ParseError::InvalidNumber));
    assert_eq!(p.next_int(), Err(ParseError::InvalidNumber));
    assert_eq!(p.next_int(), Err(ParseError::WrongType));
    assert_eq!(p.next_int(), Err(ParseError::EndOfStream));
}

#[test]
fn finish_fails_while_fields_remain() {
    let mut p = cursor(vec![bulk(b"a"), bulk(b"b")]);
    assert!(!p.is_done());
    assert_eq!(p.finish(), Err(ParseError::TrailingFields));
    assert_eq!(p.next_string(), Ok("a".to_string()));
    assert_eq!(p.finish(), Err(ParseError::TrailingFields));
    assert_eq!(p.next_string(), Ok("b".to_string()));
    assert!(p.is_done());
    assert_eq!(p.finish(), Ok(()));
}

#[test]
fn text_eq_compares_whole_texts() {
    assert!(text_eq("get", "get"));
    assert!(text_eq("", ""));
    assert!(!text_eq("get", "ge"));
    assert!(!text_eq("get", "gets"));
    assert!(!text_eq("get", "set"));
    assert!(!text_eq("GET", "get"));
}
