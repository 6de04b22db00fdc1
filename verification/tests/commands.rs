use bytes::Bytes;
use resp_server::cmd::set::{SetCmd, StoreCall};
use resp_server::cmd::request::Request;
use resp_server::cmd::{reply, Command};
use resp_server::frame::Frame;
use resp_server::parse::{Parse, ParseError};
use std::time::Duration;

fn bulk(s: &str) -> Frame {
    Frame::Bulk(Bytes::copy_from_slice(s.as_bytes()))
}

fn request(words: &[&str]) -> Frame {
    Frame::Array(words.iter().map(|w| bulk(w)).collect())
}

fn command(words: &[&str]) -> Command {
    match Command::from_frame(request(words)) {
        Ok(c) => c,
        Err(e) => panic!("no command: {:?}", e),
    }
}

fn failure(words: &[&str]) -> ParseError {
    match Command::from_frame(request(words)) {
        Ok(c) => panic!("a command: {:?}", c),
        Err(e) => e,
    }
}

fn b(s: &str) -> Bytes {
    Bytes::copy_from_slice(s.as_bytes())
}

#[test]
fn request_must_be_an_array_that_starts_with_a_name() {
    assert!(matches!(Command::from_frame(bulk("GET")), Err(ParseError::NotAnArray)));
    assert!(matches!(Command::from_frame(Frame::Array(vec![])), Err(ParseError::EndOfStream)));
    assert!(matches!(
        Command::from_frame(Frame::Array(vec![Frame::Integer(1)])),
        Err(ParseError::WrongType)
    ));
}

#[test]
fn get_takes_one_key() {
    match command(&["GET", "k"]) {
        Command::Get { key } => assert_eq!(key, "k"),
        other => panic!("{:?}", other),
    }
    assert_eq!(failure(&["GET"]), ParseError::EndOfStream);
    assert_eq!(failure(&["GET", "k", "extra"]), ParseError::TrailingFields);
}

#[test]
fn names_are_matched_in_any_case() {
    assert!(matches!(command(&["get", "k"]), Command::Get { .. }));
    assert!(matches!(command(&["GeT", "k"]), Command::Get { .. }));
    assert!(matches!(command(&["PING"]), Command::Ping { message: None }));
    assert!(matches!(command(&["Ttl", "k"]), Command::TTL { .. }));
}

#[test]
fn set_without_option() {
    match command(&["SET", "k", "v"]) {
        Command::SetCmd(s) => {
            assert_eq!(s.key(), "k");
            assert_eq!(s.value(), &b("v"));
            assert_eq!(s.expire(), None);
            assert!(!s.only_if_absent());
        }
        other => panic!("{:?}", other),
    }
}

#[test]
fn set_with_seconds() {
    match command(&["SET", "k", "v", "EX", "10"]) {
        Command::SetCmd(s) => {
            assert_eq!(s.expire(), Some(Duration::from_secs(10)));
            assert!(!s.only_if_absent());
        }
        other => panic!("{:?}", other),
    }
    match command(&["set", "k", "v", "ex", "3"]) {
        Command::SetCmd(s) => assert_eq!(s.expire(), Some(Duration::new(3, 0))),
        other => panic!("{:?}", other),
    }
}

#[test]
fn set_with_milliseconds() {
    match command(&["SET", "k", "v", "px", "1500"]) {
        Command::SetCmd(s) => assert_eq!(s.expire(), Some(Duration::new(1, 500_000_000))),
        other => panic!("{:?}", other),
    }
}

#[test]
fn set_only_if_absent() {
    match command(&["SET", "k", "v", "nx"]) {
        Command::SetCmd(s) => {
            assert!(s.only_if_absent());
            assert_eq!(s.expire(), None);
            match s.store_call() {
                StoreCall::PutIfAbsent { key, value } => {
                    assert_eq!(key, "k");
                    assert_eq!(value, b("v"));
                }
                other => panic!("{:?}", other),
            }
        }
        other => panic!("{:?}", other),
    }
}

#[test]
fn set_failures() {
    assert_eq!(failure(&["SET"]), ParseError::EndOfStream);
    assert_eq!(failure(&["SET", "k"]), ParseError::EndOfStream);
    assert_eq!(failure(&["SET", "k", "v", "EX"]), ParseError::EndOfStream);
    assert_eq!(failure(&["SET", "k", "v", "EX", "soon"]), ParseError::InvalidNumber);
    assert_eq!(failure(&["SET", "k", "v", "XX"]), ParseError::UnsupportedOption);
    assert_eq!(failure(&["SET", "k", "v", "EX", "1", "NX"]), ParseError::TrailingFields);
    assert_eq!(failure(&["SET", "k", "v", "NX", "EX"]), ParseError::TrailingFields);
    let odd = Frame::Array(vec![bulk("SET"), bulk("k"), bulk("v"), Frame::Integer(1)]);
    assert!(matches!(Command::from_frame(odd), Err(ParseError::WrongType)));
}

#[test]
fn set_parse_frames_leaves_what_follows() {
    let mut p = match Parse::new(request(&["k", "v", "NX", "more"])) {
        Ok(p) => p,
        Err(e) => panic!("{:?}", e),
    };
    let s = match SetCmd::parse_frames(&mut p) {
        Ok(s) => s,
        Err(e) => panic!("{:?}", e),
    };
    assert_eq!(s.key(), "k");
    assert!(s.only_if_absent());
    assert_eq!(p.next_string(), Ok("more".to_string()));
}

#[test]
fn set_with_option_takes_the_word_in_upper_case() {
    let mut p = match Parse::new(request(&["7"])) {
        Ok(p) => p,
        Err(e) => panic!("{:?}", e),
    };
    let s = match SetCmd::with_option("k".to_string(), b("v"), "PX", &mut p) {
        Ok(s) => s,
        Err(e) => panic!("{:?}", e),
    };
    assert_eq!(s.expire(), Some(Duration::from_millis(7)));
    let mut q = match Parse::new(request(&["7"])) {
        Ok(p) => p,
        Err(e) => panic!("{:?}", e),
    };
    assert!(matches!(
        SetCmd::with_option("k".to_string(), b("v"), "px", &mut q),
        Err(ParseError::UnsupportedOption)
    ));
}

#[test]
fn set_new_and_getters() {
    let s = SetCmd::new("foo", b("bar"), Some(Duration::from_secs(2)));
    assert_eq!(s.key(), "foo");
    assert_eq!(s.value(), &b("bar"));
    assert_eq!(s.expire(), Some(Duration::from_secs(2)));
    assert!(!s.only_if_absent());
    match s.store_call() {
        StoreCall::Put { key, value, ttl } => {
            assert_eq!(key, "foo");
            assert_eq!(value, b("bar"));
            assert_eq!(ttl, Some(Duration::from_secs(2)));
        }
        other => panic!("{:?}", other),
    }
    let t = SetCmd::new("foo", b("bar"), None);
    assert_eq!(t.into_frame(), Frame::Array(vec![]));
}

#[test]
fn setnx_and_setex() {
    match command(&["SETNX", "k", "v"]) {
        Command::SetNX { key, value } => {
            assert_eq!(key, "k");
            assert_eq!(value, b("v"));
        }
        other => panic!("{:?}", other),
    }
    match command(&["SETEX", "k", "30", "v"]) {
        Command::SetEX { key, seconds, value } => {
            assert_eq!(key, "k");
            assert_eq!(seconds, 30);
            assert_eq!(value, b("v"));
        }
        other => panic!("{:?}", other),
    }
    assert_eq!(failure(&["SETNX", "k"]), ParseError::EndOfStream);
    assert_eq!(failure(&["SETEX", "k", "30"]), ParseError::EndOfStream);
    assert_eq!(failure(&["SETEX", "k", "v", "30"]), ParseError::InvalidNumber);
    assert_eq!(failure(&["SETNX", "k", "v", "w"]), ParseError::TrailingFields);
}

#[test]
fn lists_of_keys() {
    match command(&["MGET", "a", "b", "c"]) {
        Command::Mget { keys } => assert_eq!(keys, vec!["a", "b", "c"]),
        other => panic!("{:?}", other),
    }
    match command(&["EXISTS", "a"]) {
        Command::Exists { keys } => assert_eq!(keys, vec!["a"]),
        other => panic!("{:?}", other),
    }
    assert_eq!(failure(&["MGET"]), ParseError::EndOfStream);
    assert_eq!(failure(&["EXISTS"]), ParseError::EndOfStream);
}

#[test]
fn mset_takes_pairs() {
    match command(&["MSET", "a", "1", "b", "2"]) {
        Command::Mset { pairs } => {
            assert_eq!(pairs, vec![("a".to_string(), b("1")), ("b".to_string(), b("2"))])
        }
        other => panic!("{:?}", other),
    }
    assert_eq!(failure(&["MSET"]), ParseError::EndOfStream);
    assert_eq!(failure(&["MSET", "a", "1", "b"]), ParseError::EndOfStream);
}

#[test]
fn ttl_and_expire() {
    match command(&["TTL", "k"]) {
        Command::TTL { key } => assert_eq!(key, "k"),
        other => panic!("{:?}", other),
    }
    match command(&["EXPIRE", "k", "60"]) {
        Command::Expire { key, seconds } => {
            assert_eq!(key, "k");
            assert_eq!(seconds, 60);
        }
        other => panic!("{:?}", other),
    }
    assert_eq!(failure(&["EXPIRE", "k"]), ParseError::EndOfStream);
    assert_eq!(failure(&["EXPIRE", "k", "-1"]), ParseError::InvalidNumber);
    assert_eq!(failure(&["TTL", "k", "x"]), ParseError::TrailingFields);
}

#[test]
fn publish_and_subscribe() {
    match command(&["PUBLISH", "ch", "hello"]) {
        Command::Publish { channel, message } => {
            assert_eq!(channel, "ch");
            assert_eq!(message, b("hello"));
        }
        other => panic!("{:?}", other),
    }
    match command(&["SUBSCRIBE", "a", "b"]) {
        Command::Subscribe { channels } => assert_eq!(channels, vec!["a", "b"]),
        other => panic!("{:?}", other),
    }
    match command(&["UNSUBSCRIBE"]) {
        Command::Unsubscribe { channels } => assert!(channels.is_empty()),
        other => panic!("{:?}", other),
    }
    match command(&["UNSUBSCRIBE", "a"]) {
        Command::Unsubscribe { channels } => assert_eq!(channels, vec!["a"]),
        other => panic!("{:?}", other),
    }
    assert_eq!(failure(&["SUBSCRIBE"]), ParseError::EndOfStream);
    assert_eq!(failure(&["PUBLISH", "ch"]), ParseError::EndOfStream);
}

#[test]
fn ping_with_and_without_message() {
    match command(&["PING"]).request_of() {
        Request::Reply(f) => assert_eq!(f, Frame::Simple("PONG".to_string())),
        other => panic!("{:?}", other),
    }
    match command(&["PING", "hi"]).request_of() {
        Request::Reply(f) => assert_eq!(f, bulk("hi")),
        other => panic!("{:?}", other),
    }
    assert_eq!(failure(&["PING", "a", "b"]), ParseError::TrailingFields);
}

#[test]
fn unknown_command_is_named_and_the_next_request_still_works() {
    let c = command(&["FOO", "bar"]);
    assert_eq!(c.get_name(), "foo");
    match c.request_of() {
        Request::Reply(f) => assert_eq!(f, Frame::Error("ERR unknown command 'foo'".to_string())),
        other => panic!("{:?}", other),
    }
    match command(&["PING"]).request_of() {
        Request::Reply(f) => assert_eq!(f, Frame::Simple("PONG".to_string())),
        other => panic!("{:?}", other),
    }
}

#[test]
fn requests_by_command() {
    assert!(matches!(command(&["GET", "k"]).request_of(), Request::Get { .. }));
    assert!(matches!(command(&["SET", "k", "v"]).request_of(), Request::Store(_)));
    assert!(matches!(command(&["MSET", "k", "v"]).request_of(), Request::MultiPut { .. }));
    assert!(matches!(command(&["TTL", "k"]).request_of(), Request::Ttl { .. }));
    assert!(matches!(command(&["PUBLISH", "c", "m"]).request_of(), Request::Publish { .. }));
    assert!(matches!(command(&["SUBSCRIBE", "c"]).request_of(), Request::Subscribe { .. }));
    assert!(matches!(command(&["UNSUBSCRIBE", "c"]).request_of(), Request::Refuse));
}

#[test]
fn names_for_counting() {
    assert_eq!(command(&["GET", "k"]).get_name(), "get");
    assert_eq!(command(&["PUBLISH", "c", "m"]).get_name(), "publish");
    assert_eq!(command(&["SET", "k", "v"]).get_name(), "set");
    assert_eq!(command(&["SETNX", "k", "v"]).get_name(), "setnx");
    assert_eq!(command(&["SETEX", "k", "1", "v"]).get_name(), "setex");
    assert_eq!(command(&["SUBSCRIBE", "c"]).get_name(), "subscribe");
    assert_eq!(command(&["UNSUBSCRIBE"]).get_name(), "unsubscribe");
    assert_eq!(command(&["PING"]).get_name(), "ping");
    assert_eq!(command(&["MGET", "k"]).get_name(), "mget");
    assert_eq!(command(&["MSET", "k", "v"]).get_name(), "mset");
    assert_eq!(command(&["TTL", "k"]).get_name(), "ttl");
    assert_eq!(command(&["EXPIRE", "k", "1"]).get_name(), "expire");
    assert_eq!(command(&["EXISTS", "k"]).get_name(), "exists");
    assert_eq!(command(&["Nope"]).get_name(), "nope");
}

#[test]
fn reply_turns_a_failure_into_an_error_frame() {
    assert_eq!(reply(Ok(Frame::Integer(1))), Frame::Integer(1));
    assert_eq!(reply(Ok(Frame::Null)), Frame::Null);
    assert_eq!(reply(Err("backend down".to_string())), Frame::Error("backend down".to_string()));
}

#[test]
fn recognised_command_leaves_no_field_behind() {
    for words in [
        vec!["k"],
        vec!["k", "v"],
        vec!["k", "v", "NX"],
        vec!["k", "v", "EX", "1"],
        vec!["k", "1", "v"],
        vec!["k", "1"],
        vec![],
        vec!["a", "b", "c", "d"],
    ] {
        for name in [
            "get", "publish", "set", "setnx", "setex", "ttl", "expire", "subscribe",
            "unsubscribe", "ping", "mget", "mset", "exists",
        ] {
            let mut p = match Parse::new(request(&words)) {
                Ok(p) => p,
                Err(e) => panic!("{:?}", e),
            };
            if Command::from_name(name, &mut p).is_ok() {
                assert!(p.is_done(), "{} {:?}", name, words);
                assert_eq!(p.finish(), Ok(()));
            }
        }
    }
    let mut p = match Parse::new(request(&["bar", "baz"])) {
        Ok(p) => p,
        Err(e) => panic!("{:?}", e),
    };
    assert!(matches!(Command::from_name("foo", &mut p), Ok(Command::Unknown { .. })));
    assert!(!p.is_done());
}
