//! What each command asks of the storage backend or of the channels, and
//! the frame that answers it once the outcome is known.

use vstd::prelude::*;
use vstd::string::StringExecFns;
use bytes::Bytes;
use crate::cmd::{pairs_view, texts_view, Command, CommandView};
use crate::cmd::response::{
    capped, count_reply, flag_reply, ok_reply, ttl_reply, value_or_null, value_reply,
    values_reply, Ttl,
};
use crate::cmd::set::{stores, StoreCall};
use crate::frame::{Frame, Value};
use crate::shim::bytes_content;

verus! {

/// What is to be done for a command.
#[derive(Debug)]
pub enum Request {
    /// Nothing is asked of anyone: this frame is the answer.
    Reply(Frame),
    /// The command has no meaning where it was sent.
    Refuse,
    /// Fetch the value of a key.
    Get { key: String },
    /// Fetch the values of several keys, in their order.
    MultiGet { keys: Vec<String> },
    /// Carry out a `SET`; the backend's own frame is the answer.
    Store(StoreCall),
    /// Write only where the key holds nothing; the answer says whether.
    PutIfAbsent { key: String, value: Bytes },
    /// Write with a time to live in seconds.
    PutExpiring { key: String, value: Bytes, seconds: u64 },
    /// Write several pairs at once.
    MultiPut { pairs: Vec<(String, Bytes)> },
    /// Count how many of the keys exist.
    Exists { keys: Vec<String> },
    /// Ask for the time that a key has left.
    Ttl { key: String },
    /// Set or replace the time to live of a key.
    Expire { key: String, seconds: u64 },
    /// Hand a message to every subscriber of a channel.
    Publish { channel: String, message: Bytes },
    /// Attach the connection to channels and serve it as a subscriber.
    Subscribe { channels: Vec<String> },
}

/// What came of a request, by the kind of request that was made.
#[derive(Debug)]
pub enum Outcome {
    /// The value of the key, or nothing where it is absent.
    Get(Option<Bytes>),
    /// For each key its value or nothing, in the order of the keys.
    MultiGet(Vec<Option<Bytes>>),
    /// The frame with which the backend answered a `SET`.
    Store(Frame),
    /// Whether the value was written.
    PutIfAbsent(bool),
    /// The value was written with its time to live.
    PutExpiring,
    /// The pairs were written.
    MultiPut,
    /// How many of the keys exist.
    Exists(u64),
    /// The time that the key has left.
    Ttl(Ttl),
    /// Whether the key was there.
    Expire(bool),
    /// How many receivers the message reached.
    Publish(u64),
}

/// Whether `r` is what is to be done for the command `c`.
pub open spec fn asks(r: Request, c: CommandView) -> bool {
    match c {
        CommandView::Ping { message: None } => r matches Request::Reply(f) && f@ == Value::Simple(
            "PONG"@,
        ),
        CommandView::Ping { message: Some(m) } => r matches Request::Reply(f) && f@ == Value::Bulk(
            m,
        ),
        CommandView::Unknown { name } => r matches Request::Reply(f) && f@ == Value::Error(
            "ERR unknown command '"@ + name + "'"@,
        ),
        CommandView::Unsubscribe { .. } => r is Refuse,
        CommandView::Get { key } => r matches Request::Get { key: k } && k@ == key,
        CommandView::Mget { keys } => r matches Request::MultiGet { keys: k } && texts_view(k@)
            == keys,
        CommandView::SetCmd(s) => r matches Request::Store(call) && stores(call, s),
        CommandView::SetNX { key, value } => r matches Request::PutIfAbsent { key: k, value: v }
            && k@ == key && bytes_content(v) == value,
        CommandView::SetEX { key, seconds, value } => r matches Request::PutExpiring {
            key: k,
            value: v,
            seconds: n,
        } && k@ == key && bytes_content(v) == value && n == seconds,
        CommandView::Mset { pairs } => r matches Request::MultiPut { pairs: p } && pairs_view(p@)
            == pairs,
        CommandView::Exists { keys } => r matches Request::Exists { keys: k } && texts_view(k@)
            == keys,
        CommandView::TTL { key } => r matches Request::Ttl { key: k } && k@ == key,
        CommandView::Expire { key, seconds } => r matches Request::Expire { key: k, seconds: n }
            && k@ == key && n == seconds,
        CommandView::Publish { channel, message } => r matches Request::Publish {
            channel: c,
            message: m,
        } && c@ == channel && bytes_content(m) == message,
        CommandView::Subscribe { channels } => r matches Request::Subscribe { channels: c }
            && texts_view(c@) == channels,
    }
}

/// The value of the frame that answers an outcome, or the failure that the
/// backend reported in its place.
pub open spec fn answer_value(outcome: Result<Outcome, String>) -> Value {
    match outcome {
        Err(m) => Value::Error(m@),
        Ok(Outcome::Get(v)) => value_or_null(v),
        Ok(Outcome::MultiGet(vs)) => Value::Array(
            Seq::new(vs@.len(), |i: int| value_or_null(vs@[i])),
        ),
        Ok(Outcome::Store(f)) => f@,
        Ok(Outcome::PutIfAbsent(done)) => Value::Integer(
            if done {
                1i64
            } else {
                0i64
            },
        ),
        Ok(Outcome::PutExpiring) => Value::Simple("OK"@),
        Ok(Outcome::MultiPut) => Value::Simple("OK"@),
        Ok(Outcome::Exists(n)) => Value::Integer(capped(n)),
        Ok(Outcome::Ttl(Ttl::Remaining(s))) => Value::Integer(capped(s)),
        Ok(Outcome::Ttl(Ttl::NoExpiry)) => Value::Integer(-1i64),
        Ok(Outcome::Ttl(Ttl::Absent)) => Value::Integer(-2i64),
        Ok(Outcome::Expire(done)) => Value::Integer(
            if done {
                1i64
            } else {
                0i64
            },
        ),
        Ok(Outcome::Publish(n)) => Value::Integer(capped(n)),
    }
}

impl Command {
    /// What is to be done for the command: `PING` and an unknown command
    /// answer themselves, `UNSUBSCRIBE` has no meaning outside a
    /// subscription, and every other command names what it asks for.
    pub fn request_of(self) -> (r: Request)
        ensures
            asks(r, self@),
    {
        match self {
            Command::Ping { message: None } => Request::Reply(Frame::Simple("PONG".to_owned())),
            Command::Ping { message: Some(m) } => Request::Reply(Frame::Bulk(m)),
            Command::Unknown { name } => {
                let mut text = "ERR unknown command '".to_owned();
                text.append(name.as_str());
                text.append("'");
                Request::Reply(Frame::Error(text))
            },
            Command::Unsubscribe { .. } => Request::Refuse,
            Command::Get { key } => Request::Get { key },
            Command::Mget { keys } => Request::MultiGet { keys },
            Command::SetCmd(set) => Request::Store(set.store_call()),
            Command::SetNX { key, value } => Request::PutIfAbsent { key, value },
            Command::SetEX { key, seconds, value } => Request::PutExpiring { key, value, seconds },
            Command::Mset { pairs } => Request::MultiPut { pairs },
            Command::Exists { keys } => Request::Exists { keys },
            Command::TTL { key } => Request::Ttl { key },
            Command::Expire { key, seconds } => Request::Expire { key, seconds },
            Command::Publish { channel, message } => Request::Publish { channel, message },
            Command::Subscribe { channels } => Request::Subscribe { channels },
        }
    }
}

/// The frame that answers a request once its outcome is known: the frame
/// that the kind of request calls for, or an error frame with the reason
/// that the backend gave for failing.
pub fn answer(outcome: Result<Outcome, String>) -> (r: Frame)
    ensures
        r@ == answer_value(outcome),
{
    match outcome {
        Err(m) => Frame::Error(m),
        Ok(Outcome::Get(v)) => value_reply(&v),
        Ok(Outcome::MultiGet(vs)) => values_reply(&vs),
        Ok(Outcome::Store(f)) => f,
        Ok(Outcome::PutIfAbsent(done)) => flag_reply(done),
        Ok(Outcome::PutExpiring) => ok_reply(),
        Ok(Outcome::MultiPut) => ok_reply(),
        Ok(Outcome::Exists(n)) => count_reply(n),
        Ok(Outcome::Ttl(t)) => ttl_reply(t),
        Ok(Outcome::Expire(done)) => flag_reply(done),
        Ok(Outcome::Publish(n)) => count_reply(n),
    }
}

} // verus!
