//! `SET key value [EX seconds | PX milliseconds | NX]`.

use vstd::prelude::*;
use bytes::Bytes;
use std::time::Duration;
use crate::frame::{Frame, Value};
use crate::parse::{Parse, ParseError, next_text, next_bytes, next_int, behind, text_eq};
use crate::shim::{
    bytes_content, duration_nanos, duration_from_secs, duration_from_millis, uppercase,
    uppercase_of,
};

verus! {

/// Sets `key` to hold `value`, for good or until `expire` has passed, and
/// where `nx` is set only if the key holds nothing yet.
#[derive(Debug)]
pub struct SetCmd {
    key: String,
    value: Bytes,
    expire: Option<Duration>,
    nx: Option<bool>,
}

/// What a `SetCmd` holds: the key, the value's bytes, the time to live in
/// nanoseconds, and the only-if-absent flag.
pub ghost struct SetView {
    pub key: Seq<char>,
    pub value: Seq<u8>,
    pub expire: Option<nat>,
    pub nx: Option<bool>,
}

/// What a storage backend is asked to do for a `SetCmd`.
#[derive(Debug)]
pub enum StoreCall {
    /// Write the value, with a time to live where one is given.
    Put { key: String, value: Bytes, ttl: Option<Duration> },
    /// Write the value only where the key holds nothing yet.
    PutIfAbsent { key: String, value: Bytes },
}

/// Whether `call` is what the storage backend is asked for the command `s`:
/// a write only where the key is absent when that was asked for, else a
/// plain write with the command's time to live.
pub open spec fn stores(call: StoreCall, s: SetView) -> bool {
    match call {
        StoreCall::Put { key, value, ttl } => s.nx is None && key@ == s.key && bytes_content(value)
            == s.value && nanos_of(ttl) == s.expire,
        StoreCall::PutIfAbsent { key, value } => s.nx is Some && key@ == s.key && bytes_content(
            value,
        ) == s.value,
    }
}

/// The time to live, in nanoseconds, that an optional duration stands for.
pub open spec fn nanos_of(d: Option<Duration>) -> Option<nat> {
    match d {
        Some(d) => Some(duration_nanos(d)),
        None => None,
    }
}

/// What the word behind the value, in upper case, makes of the fields behind
/// it: the time to live in nanoseconds, the only-if-absent flag, and the
/// fields that are left.
pub open spec fn set_option(upper: Seq<char>, fields: Seq<Value>) -> Result<
    (Option<nat>, Option<bool>, Seq<Value>),
    ParseError,
> {
    if upper == "EX"@ {
        match next_int(fields) {
            Ok(secs) => Ok((Some((secs * 1_000_000_000) as nat), None, behind(fields))),
            Err(e) => Err(e),
        }
    } else if upper == "PX"@ {
        match next_int(fields) {
            Ok(ms) => Ok((Some((ms * 1_000_000) as nat), None, behind(fields))),
            Err(e) => Err(e),
        }
    } else if upper == "NX"@ {
        Ok((None, Some(true), fields))
    } else {
        Err(ParseError::UnsupportedOption)
    }
}

/// What the fields behind the word `SET` say: the command and the fields
/// that are left behind it.
pub open spec fn parsed_set(fields: Seq<Value>) -> Result<(SetView, Seq<Value>), ParseError> {
    match next_text(fields) {
        Err(e) => Err(e),
        Ok(key) => match next_bytes(behind(fields)) {
            Err(e) => Err(e),
            Ok(value) => {
                let tail = behind(behind(fields));
                match next_text(tail) {
                    Err(ParseError::EndOfStream) => Ok(
                        (SetView { key, value, expire: None, nx: None }, tail),
                    ),
                    Err(e) => Err(e),
                    Ok(word) => match set_option(uppercase_of(word), behind(tail)) {
                        Ok((expire, nx, rest)) => Ok((SetView { key, value, expire, nx }, rest)),
                        Err(e) => Err(e),
                    },
                }
            },
        },
    }
}

impl View for SetCmd {
    type V = SetView;

    closed spec fn view(&self) -> SetView {
        SetView {
            key: self.key@,
            value: bytes_content(self.value),
            expire: nanos_of(self.expire),
            nx: self.nx,
        }
    }
}

impl SetCmd {
    /// A command that sets `key` to `value` that expires after `expire`, where one is
    /// given, and overwrites what the key holds.
    pub fn new(key: &str, value: Bytes, expire: Option<Duration>) -> (r: SetCmd)
        ensures
            r@ == (SetView {
                key: key@,
                value: bytes_content(value),
                expire: nanos_of(expire),
                nx: None,
            }),
    {
        SetCmd { key: key.to_owned(), value, expire, nx: None }
    }

    /// The key.
    pub fn key(&self) -> (r: &str)
        ensures
            r@ == self@.key,
    {
        self.key.as_str()
    }

    /// The value.
    pub fn value(&self) -> (r: &Bytes)
        ensures
            bytes_content(*r) == self@.value,
    {
        &self.value
    }

    /// The time to live, where one was given.
    pub fn expire(&self) -> (r: Option<Duration>)
        ensures
            nanos_of(r) == self@.expire,
    {
        self.expire
    }

    /// Whether the write is to happen only where the key holds nothing.
    pub fn only_if_absent(&self) -> (r: bool)
        ensures
            r == self@.nx.is_some(),
    {
        self.nx.is_some()
    }

    /// Completes a command that sets `key` to `value` from the option word `upper`,
    /// given in upper case, and the fields behind it.
    pub fn with_option(key: String, value: Bytes, upper: &str, parse: &mut Parse) -> (r: Result<SetCmd, ParseError>)
        requires
            old(parse).wf(),
        ensures
            final(parse).wf(),
            match set_option(upper@, old(parse).remaining()) {
                Ok((expire, nx, rest)) => r matches Ok(s) && s@ == (SetView {
                    key: key@,
                    value: bytes_content(value),
                    expire,
                    nx,
                }) && final(parse).remaining() == rest,
                Err(e) => r matches Err(x) && x == e,
            },
    {
        if text_eq(upper, "EX") {
            match parse.next_int() {
                Ok(secs) => Ok(
                    SetCmd { key, value, expire: Some(duration_from_secs(secs)), nx: None },
                ),
                Err(e) => Err(e),
            }
        } else if text_eq(upper, "PX") {
            match parse.next_int() {
                Ok(ms) => Ok(SetCmd { key, value, expire: Some(duration_from_millis(ms)), nx: None }),
                Err(e) => Err(e),
            }
        } else if text_eq(upper, "NX") {
            Ok(SetCmd { key, value, expire: None, nx: Some(true) })
        } else {
            Err(ParseError::UnsupportedOption)
        }
    }

    /// Reads the command from the fields behind the word `SET`.
    pub fn parse_frames(parse: &mut Parse) -> (r: Result<SetCmd, ParseError>)
        requires
            old(parse).wf(),
        ensures
            final(parse).wf(),
            match parsed_set(old(parse).remaining()) {
                Ok((v, rest)) => r matches Ok(s) && s@ == v && final(parse).remaining() == rest,
                Err(e) => r matches Err(x) && x == e,
            },
    {
        let key = match parse.next_string() {
            Ok(k) => k,
            Err(e) => {
                return Err(e);
            },
        };
        let value = match parse.next_bytes() {
            Ok(v) => v,
            Err(e) => {
                return Err(e);
            },
        };
        match parse.next_string() {
            Ok(word) => {
                let upper = uppercase(word.as_str());
                SetCmd::with_option(key, value, upper.as_str(), parse)
            },
            Err(ParseError::EndOfStream) => Ok(SetCmd { key, value, expire: None, nx: None }),
            Err(e) => Err(e),
        }
    }

    /// What the storage backend is asked to do: a write only where the key
    /// is absent when that was asked for, else a plain write with the time to
    /// live.
    pub fn store_call(self) -> (r: StoreCall)
        ensures
            stores(r, self@),
    {
        match self.nx {
            Some(_) => StoreCall::PutIfAbsent { key: self.key, value: self.value },
            None => StoreCall::Put { key: self.key, value: self.value, ttl: self.expire },
        }
    }

    /// The command as a frame: an empty array.
    pub fn into_frame(self) -> (r: Frame)
        ensures
            r@ == Value::Array(Seq::empty()),
    {
        let items: Vec<Frame> = Vec::new();
        let r = Frame::Array(items);
        assert(r@->Array_0 =~= Seq::<Value>::empty());
        r
    }
}

} // verus!
