//! The commands that a request can name and how a request is read as one.

pub mod request;
pub mod response;
pub mod set;

use vstd::prelude::*;
use bytes::Bytes;
use crate::frame::{Frame, Value};
use crate::parse::{
    Parse, ParseError, next_text, next_bytes, next_int, behind, text_of_value, text_eq,
};
use crate::shim::{bytes_content, lowercase, lowercase_of};
use crate::cmd::set::{SetCmd, SetView, parsed_set};

verus! {

/// One request, read and checked.
#[derive(Debug)]
#[allow(inconsistent_fields)]
pub enum Command {
    Get { key: String },
    Mget { keys: Vec<String> },
    Publish { channel: String, message: Bytes },
    SetCmd(SetCmd),
    SetNX { key: String, value: Bytes },
    SetEX { key: String, seconds: u64, value: Bytes },
    Mset { pairs: Vec<(String, Bytes)> },
    Subscribe { channels: Vec<String> },
    Unsubscribe { channels: Vec<String> },
    Ping { message: Option<Bytes> },
    TTL { key: String },
    Expire { key: String, seconds: u64 },
    Exists { keys: Vec<String> },
    Unknown { name: String },
}

/// What a command holds.
#[allow(inconsistent_fields)]
pub ghost enum CommandView {
    Get { key: Seq<char> },
    Mget { keys: Seq<Seq<char>> },
    Publish { channel: Seq<char>, message: Seq<u8> },
    SetCmd(SetView),
    SetNX { key: Seq<char>, value: Seq<u8> },
    SetEX { key: Seq<char>, seconds: u64, value: Seq<u8> },
    Mset { pairs: Seq<(Seq<char>, Seq<u8>)> },
    Subscribe { channels: Seq<Seq<char>> },
    Unsubscribe { channels: Seq<Seq<char>> },
    Ping { message: Option<Seq<u8>> },
    TTL { key: Seq<char> },
    Expire { key: Seq<char>, seconds: u64 },
    Exists { keys: Seq<Seq<char>> },
    Unknown { name: Seq<char> },
}

/// The texts of a list of strings.
pub open spec fn texts_view(v: Seq<String>) -> Seq<Seq<char>> {
    Seq::new(v.len(), |i: int| v[i]@)
}

/// The keys and values of a list of pairs.
pub open spec fn pairs_view(v: Seq<(String, Bytes)>) -> Seq<(Seq<char>, Seq<u8>)> {
    Seq::new(v.len(), |i: int| (v[i].0@, bytes_content(v[i].1)))
}

/// The optional bytes of an optional `Bytes`.
pub open spec fn message_view(m: Option<Bytes>) -> Option<Seq<u8>> {
    match m {
        Some(b) => Some(bytes_content(b)),
        None => None,
    }
}

impl View for Command {
    type V = CommandView;

    open spec fn view(&self) -> CommandView {
        match self {
            Command::Get { key } => CommandView::Get { key: key@ },
            Command::Mget { keys } => CommandView::Mget { keys: texts_view(keys@) },
            Command::Publish { channel, message } => CommandView::Publish {
                channel: channel@,
                message: bytes_content(*message),
            },
            Command::SetCmd(s) => CommandView::SetCmd(s@),
            Command::SetNX { key, value } => CommandView::SetNX {
                key: key@,
                value: bytes_content(*value),
            },
            Command::SetEX { key, seconds, value } => CommandView::SetEX {
                key: key@,
                seconds: *seconds,
                value: bytes_content(*value),
            },
            Command::Mset { pairs } => CommandView::Mset { pairs: pairs_view(pairs@) },
            Command::Subscribe { channels } => CommandView::Subscribe {
                channels: texts_view(channels@),
            },
            Command::Unsubscribe { channels } => CommandView::Unsubscribe {
                channels: texts_view(channels@),
            },
            Command::Ping { message } => CommandView::Ping { message: message_view(*message) },
            Command::TTL { key } => CommandView::TTL { key: key@ },
            Command::Expire { key, seconds } => CommandView::Expire { key: key@, seconds: *seconds },
            Command::Exists { keys } => CommandView::Exists { keys: texts_view(keys@) },
            Command::Unknown { name } => CommandView::Unknown { name: name@ },
        }
    }
}

/// All of `fields` as texts, behind those in `done`; the first field that
/// is no text decides the error.
pub open spec fn all_texts(fields: Seq<Value>, done: Seq<Seq<char>>) -> Result<
    Seq<Seq<char>>,
    ParseError,
>
    decreases fields.len(),
{
    if fields.len() == 0 {
        Ok(done)
    } else {
        match text_of_value(fields[0]) {
            Ok(s) => all_texts(fields.drop_first(), done.push(s)),
            Err(e) => Err(e),
        }
    }
}

/// All of `fields` as pairs of a key and a value, behind those in `done`.
pub open spec fn all_pairs(fields: Seq<Value>, done: Seq<(Seq<char>, Seq<u8>)>) -> Result<
    Seq<(Seq<char>, Seq<u8>)>,
    ParseError,
>
    decreases fields.len(),
{
    if fields.len() == 0 {
        Ok(done)
    } else {
        match text_of_value(fields[0]) {
            Err(e) => Err(e),
            Ok(k) => match next_bytes(fields.drop_first()) {
                Err(e) => Err(e),
                Ok(v) => if fields.len() >= 2 {
                    all_pairs(fields.drop_first().drop_first(), done.push((k, v)))
                } else {
                    Err(ParseError::EndOfStream)
                },
            },
        }
    }
}

/// A command is complete only where no field is left behind it.
pub open spec fn complete(rest: Seq<Value>, c: CommandView) -> Result<CommandView, ParseError> {
    if rest.len() == 0 {
        Ok(c)
    } else {
        Err(ParseError::TrailingFields)
    }
}

/// At least one text, and nothing but texts.
pub open spec fn some_texts(fields: Seq<Value>) -> Result<Seq<Seq<char>>, ParseError> {
    if fields.len() == 0 {
        Err(ParseError::EndOfStream)
    } else {
        all_texts(fields, Seq::empty())
    }
}

/// A key and nothing else.
pub open spec fn parsed_key(fields: Seq<Value>) -> Result<Seq<char>, ParseError> {
    match next_text(fields) {
        Ok(key) => if fields.len() == 1 {
            Ok(key)
        } else {
            Err(ParseError::TrailingFields)
        },
        Err(e) => Err(e),
    }
}

/// Whether `name` is one of the commands that read or write one key.
pub open spec fn is_key_command(name: Seq<char>) -> bool {
    name == "get"@ || name == "publish"@ || name == "set"@ || name == "setnx"@ || name
        == "setex"@ || name == "ttl"@ || name == "expire"@
}

/// Whether `name` is one of the commands that take a list of fields.
pub open spec fn is_list_command(name: Seq<char>) -> bool {
    name == "subscribe"@ || name == "unsubscribe"@ || name == "ping"@ || name == "mget"@ || name
        == "mset"@ || name == "exists"@
}

/// What the fields behind a command name say, the name taken in lower case.
pub open spec fn parsed(name: Seq<char>, fields: Seq<Value>) -> Result<CommandView, ParseError> {
    if is_key_command(name) {
        parsed_key_command(name, fields)
    } else if is_list_command(name) {
        parsed_list_command(name, fields)
    } else {
        Ok(CommandView::Unknown { name })
    }
}

/// What the fields say behind the name of a command on one key.
pub open spec fn parsed_key_command(name: Seq<char>, fields: Seq<Value>) -> Result<
    CommandView,
    ParseError,
> {
    if name == "get"@ {
        match parsed_key(fields) {
            Ok(key) => Ok(CommandView::Get { key }),
            Err(e) => Err(e),
        }
    } else if name == "publish"@ {
        match next_text(fields) {
            Err(e) => Err(e),
            Ok(channel) => match next_bytes(behind(fields)) {
                Err(e) => Err(e),
                Ok(message) => complete(
                    behind(behind(fields)),
                    CommandView::Publish { channel, message },
                ),
            },
        }
    } else if name == "set"@ {
        match parsed_set(fields) {
            Ok((v, rest)) => complete(rest, CommandView::SetCmd(v)),
            Err(e) => Err(e),
        }
    } else if name == "setnx"@ {
        match next_text(fields) {
            Err(e) => Err(e),
            Ok(key) => match next_bytes(behind(fields)) {
                Err(e) => Err(e),
                Ok(value) => complete(behind(behind(fields)), CommandView::SetNX { key, value }),
            },
        }
    } else if name == "setex"@ {
        match next_text(fields) {
            Err(e) => Err(e),
            Ok(key) => match next_int(behind(fields)) {
                Err(e) => Err(e),
                Ok(seconds) => match next_bytes(behind(behind(fields))) {
                    Err(e) => Err(e),
                    Ok(value) => complete(
                        behind(behind(behind(fields))),
                        CommandView::SetEX { key, seconds, value },
                    ),
                },
            },
        }
    } else if name == "ttl"@ {
        match parsed_key(fields) {
            Ok(key) => Ok(CommandView::TTL { key }),
            Err(e) => Err(e),
        }
    } else if name == "expire"@ {
        match next_text(fields) {
            Err(e) => Err(e),
            Ok(key) => match next_int(behind(fields)) {
                Err(e) => Err(e),
                Ok(seconds) => complete(
                    behind(behind(fields)),
                    CommandView::Expire { key, seconds },
                ),
            },
        }
    } else {
        Err(ParseError::EndOfStream)
    }
}

/// What the fields say behind the name of a command on a list of fields.
pub open spec fn parsed_list_command(name: Seq<char>, fields: Seq<Value>) -> Result<
    CommandView,
    ParseError,
> {
    if name == "subscribe"@ {
        match some_texts(fields) {
            Ok(channels) => Ok(CommandView::Subscribe { channels }),
            Err(e) => Err(e),
        }
    } else if name == "unsubscribe"@ {
        match all_texts(fields, Seq::empty()) {
            Ok(channels) => Ok(CommandView::Unsubscribe { channels }),
            Err(e) => Err(e),
        }
    } else if name == "ping"@ {
        match next_bytes(fields) {
            Ok(m) => complete(behind(fields), CommandView::Ping { message: Some(m) }),
            Err(ParseError::EndOfStream) => Ok(CommandView::Ping { message: None }),
            Err(e) => Err(e),
        }
    } else if name == "mget"@ {
        match some_texts(fields) {
            Ok(keys) => Ok(CommandView::Mget { keys }),
            Err(e) => Err(e),
        }
    } else if name == "mset"@ {
        if fields.len() == 0 {
            Err(ParseError::EndOfStream)
        } else {
            match all_pairs(fields, Seq::empty()) {
                Ok(pairs) => Ok(CommandView::Mset { pairs }),
                Err(e) => Err(e),
            }
        }
    } else if name == "exists"@ {
        match some_texts(fields) {
            Ok(keys) => Ok(CommandView::Exists { keys }),
            Err(e) => Err(e),
        }
    } else {
        Err(ParseError::EndOfStream)
    }
}

/// What a request frame says: it must be an array whose first field is the
/// command's name, in any case of letters.
pub open spec fn command_of(v: Value) -> Result<CommandView, ParseError> {
    match v {
        Value::Array(fields) => match next_text(fields) {
            Ok(name) => parsed(lowercase_of(name), behind(fields)),
            Err(e) => Err(e),
        },
        _ => Err(ParseError::NotAnArray),
    }
}

/// Whether a result says what its model says.
pub open spec fn same_command(
    r: Result<Command, ParseError>,
    m: Result<CommandView, ParseError>,
) -> bool {
    match m {
        Ok(v) => r matches Ok(c) && c@ == v,
        Err(e) => r matches Err(x) && x == e,
    }
}

/// The name under which a command is counted: the name that the request
/// gave, in lower case.
pub open spec fn name_of(c: CommandView) -> Seq<char> {
    match c {
        CommandView::Get { .. } => "get"@,
        CommandView::Publish { .. } => "publish"@,
        CommandView::SetCmd(_) => "set"@,
        CommandView::SetNX { .. } => "setnx"@,
        CommandView::SetEX { .. } => "setex"@,
        CommandView::Subscribe { .. } => "subscribe"@,
        CommandView::Unsubscribe { .. } => "unsubscribe"@,
        CommandView::Ping { .. } => "ping"@,
        CommandView::Mget { .. } => "mget"@,
        CommandView::Mset { .. } => "mset"@,
        CommandView::TTL { .. } => "ttl"@,
        CommandView::Expire { .. } => "expire"@,
        CommandView::Exists { .. } => "exists"@,
        CommandView::Unknown { name } => name,
    }
}

/// A field that reads as a text, as bytes and as a number alike.
pub open spec fn readable(v: Value) -> bool {
    text_of_value(v) is Ok && crate::parse::bytes_of_value(v) is Ok && crate::parse::int_of_value(
        v,
    ) is Ok
}

/// The number of fields that a command cannot do without.
pub open spec fn required_fields(name: Seq<char>) -> nat {
    if name == "get"@ {
        1
    } else if name == "publish"@ {
        2
    } else if name == "set"@ {
        2
    } else if name == "setnx"@ {
        2
    } else if name == "setex"@ {
        3
    } else if name == "ttl"@ {
        1
    } else if name == "expire"@ {
        2
    } else if name == "subscribe"@ {
        1
    } else if name == "unsubscribe"@ {
        0
    } else if name == "ping"@ {
        0
    } else if name == "mget"@ {
        1
    } else if name == "mset"@ {
        2
    } else if name == "exists"@ {
        1
    } else {
        0
    }
}

/// The number of fields that a command of fixed shape takes at most.
pub open spec fn allowed_fields(name: Seq<char>) -> Option<nat> {
    if name == "get"@ {
        Some(1)
    } else if name == "publish"@ {
        Some(2)
    } else if name == "set"@ {
        None
    } else if name == "setnx"@ {
        Some(2)
    } else if name == "setex"@ {
        Some(3)
    } else if name == "ttl"@ {
        Some(1)
    } else if name == "expire"@ {
        Some(2)
    } else if name == "subscribe"@ || name == "unsubscribe"@ {
        None
    } else if name == "ping"@ {
        Some(1)
    } else {
        None
    }
}

/// A request that is read as a command the library knows has no fewer
/// fields than the command needs and, for a command of fixed shape, no
/// more than it takes.
pub proof fn parsed_uses_every_field(name: Seq<char>, fields: Seq<Value>)
    requires
        is_key_command(name) || is_list_command(name),
        parsed(name, fields) is Ok,
    ensures
        fields.len() >= required_fields(name),
        allowed_fields(name) is Some ==> fields.len() <= allowed_fields(name)->0,
{
    if !is_key_command(name) && name != "subscribe"@ && name != "unsubscribe"@ && name != "ping"@
        && name != "mget"@ && name == "mset"@ {
        assert(all_pairs(fields, Seq::empty()) is Ok);
    }
}

/// A command with fewer fields than it needs fails with `EndOfStream`,
/// where the fields that are there read well.
pub proof fn too_few_fields(name: Seq<char>, fields: Seq<Value>)
    requires
        fields.len() < required_fields(name),
        forall|i: int| 0 <= i < fields.len() ==> readable(#[trigger] fields[i]),
    ensures
        parsed(name, fields) == Err::<CommandView, ParseError>(ParseError::EndOfStream),
{
    if fields.len() >= 1 {
        assert(readable(fields[0]));
        assert(behind(fields).len() == fields.len() - 1);
        if fields.len() >= 2 {
            assert(readable(fields[1]));
            assert(behind(fields)[0] == fields[1]);
        }
    }
}

/// A command of fixed shape with more fields than it takes fails with
/// `TrailingFields`, where its fields read well.
pub proof fn too_many_fields(name: Seq<char>, fields: Seq<Value>)
    requires
        allowed_fields(name) is Some,
        fields.len() > allowed_fields(name)->0,
        forall|i: int| 0 <= i < fields.len() ==> readable(#[trigger] fields[i]),
    ensures
        parsed(name, fields) == Err::<CommandView, ParseError>(ParseError::TrailingFields),
{
    assert(readable(fields[0]));
    assert(readable(fields[1]));
    let f1 = behind(fields);
    assert(f1[0] == fields[1]);
    let f2 = behind(f1);
    if fields.len() >= 3 {
        assert(readable(fields[2]));
        assert(f2[0] == fields[2]);
    }
}

/// Reads every field that is left as a text.
fn read_texts(parse: &mut Parse) -> (r: Result<Vec<String>, ParseError>)
    requires
        old(parse).wf(),
    ensures
        final(parse).wf(),
        r is Ok ==> final(parse).remaining().len() == 0,
        match all_texts(old(parse).remaining(), Seq::empty()) {
            Ok(ts) => r matches Ok(v) && texts_view(v@) == ts,
            Err(e) => r matches Err(x) && x == e,
        },
{
    let mut out: Vec<String> = Vec::new();
    let ghost start = parse.remaining();
    assert(texts_view(out@) =~= Seq::<Seq<char>>::empty());
    while !parse.is_done()
        invariant
            parse.wf(),
            start == old(parse).remaining(),
            all_texts(start, Seq::empty()) == all_texts(parse.remaining(), texts_view(out@)),
        decreases parse.remaining().len(),
    {
        let ghost before = texts_view(out@);
        match parse.next_string() {
            Ok(s) => {
                out.push(s);
                assert(texts_view(out@) =~= before.push(s@));
            },
            Err(e) => {
                return Err(e);
            },
        }
    }
    Ok(out)
}

/// Reads at least one text, and every field that is left as one.
fn read_some_texts(parse: &mut Parse) -> (r: Result<Vec<String>, ParseError>)
    requires
        old(parse).wf(),
    ensures
        final(parse).wf(),
        r is Ok ==> final(parse).remaining().len() == 0,
        match some_texts(old(parse).remaining()) {
            Ok(ts) => r matches Ok(v) && texts_view(v@) == ts,
            Err(e) => r matches Err(x) && x == e,
        },
{
    if parse.is_done() {
        Err(ParseError::EndOfStream)
    } else {
        read_texts(parse)
    }
}

/// Reads every field that is left as pairs of a key and a value.
fn read_pairs(parse: &mut Parse) -> (r: Result<Vec<(String, Bytes)>, ParseError>)
    requires
        old(parse).wf(),
    ensures
        final(parse).wf(),
        r is Ok ==> final(parse).remaining().len() == 0,
        match all_pairs(old(parse).remaining(), Seq::empty()) {
            Ok(ps) => r matches Ok(v) && pairs_view(v@) == ps,
            Err(e) => r matches Err(x) && x == e,
        },
{
    let mut out: Vec<(String, Bytes)> = Vec::new();
    let ghost start = parse.remaining();
    assert(pairs_view(out@) =~= Seq::<(Seq<char>, Seq<u8>)>::empty());
    while !parse.is_done()
        invariant
            parse.wf(),
            start == old(parse).remaining(),
            all_pairs(start, Seq::empty()) == all_pairs(parse.remaining(), pairs_view(out@)),
        decreases parse.remaining().len(),
    {
        let ghost before = pairs_view(out@);
        let key = match parse.next_string() {
            Ok(k) => k,
            Err(e) => {
                return Err(e);
            },
        };
        let value = match parse.next_bytes() {
            Ok(v) => v,
            Err(e) => {
                return Err(e);
            },
        };
        let ghost pair = (key@, bytes_content(value));
        out.push((key, value));
        assert(pairs_view(out@) =~= before.push(pair));
    }
    Ok(out)
}

/// Reads one key, behind which nothing may follow.
fn read_key(parse: &mut Parse) -> (r: Result<String, ParseError>)
    requires
        old(parse).wf(),
    ensures
        final(parse).wf(),
        r is Ok ==> final(parse).remaining().len() == 0,
        match parsed_key(old(parse).remaining()) {
            Ok(k) => r matches Ok(s) && s@ == k,
            Err(e) => r matches Err(x) && x == e,
        },
{
    let key = match parse.next_string() {
        Ok(k) => k,
        Err(e) => {
            return Err(e);
        },
    };
    match parse.finish() {
        Ok(()) => Ok(key),
        Err(e) => Err(e),
    }
}

/// Hands `c` on where no field is left.
fn completed(parse: &Parse, c: Command) -> (r: Result<Command, ParseError>)
    requires
        parse.wf(),
    ensures
        same_command(r, complete(parse.remaining(), c@)),
        r is Ok ==> parse.remaining().len() == 0,
{
    match parse.finish() {
        Ok(()) => Ok(c),
        Err(e) => Err(e),
    }
}

/// Reads a key and a value, behind which nothing may follow.
fn read_key_value(parse: &mut Parse) -> (r: Result<(String, Bytes), ParseError>)
    requires
        old(parse).wf(),
    ensures
        final(parse).wf(),
        r is Ok ==> final(parse).remaining().len() == 0,
        match next_text(old(parse).remaining()) {
            Err(e) => r matches Err(x) && x == e,
            Ok(k) => match next_bytes(behind(old(parse).remaining())) {
                Err(e) => r matches Err(x) && x == e,
                Ok(v) => if behind(behind(old(parse).remaining())).len() == 0 {
                    r matches Ok(p) && p.0@ == k && bytes_content(p.1) == v
                } else {
                    r matches Err(x) && x == ParseError::TrailingFields
                },
            },
        },
{
    let key = match parse.next_string() {
        Ok(k) => k,
        Err(e) => {
            return Err(e);
        },
    };
    let value = match parse.next_bytes() {
        Ok(v) => v,
        Err(e) => {
            return Err(e);
        },
    };
    match parse.finish() {
        Ok(()) => Ok((key, value)),
        Err(e) => Err(e),
    }
}

/// Reads a command on one key from the fields behind its name.
fn read_key_command(name: &str, parse: &mut Parse) -> (r: Result<Command, ParseError>)
    requires
        old(parse).wf(),
    ensures
        final(parse).wf(),
        r is Ok ==> final(parse).remaining().len() == 0,
        same_command(r, parsed_key_command(name@, old(parse).remaining())),
{
    if text_eq(name, "get") {
        match read_key(parse) {
            Ok(key) => Ok(Command::Get { key }),
            Err(e) => Err(e),
        }
    } else if text_eq(name, "publish") {
        match read_key_value(parse) {
            Ok((channel, message)) => Ok(Command::Publish { channel, message }),
            Err(e) => Err(e),
        }
    } else if text_eq(name, "set") {
        match SetCmd::parse_frames(parse) {
            Ok(s) => completed(parse, Command::SetCmd(s)),
            Err(e) => Err(e),
        }
    } else if text_eq(name, "setnx") {
        match read_key_value(parse) {
            Ok((key, value)) => Ok(Command::SetNX { key, value }),
            Err(e) => Err(e),
        }
    } else if text_eq(name, "setex") {
        let key = match parse.next_string() {
            Ok(k) => k,
            Err(e) => {
                return Err(e);
            },
        };
        let seconds: u64 = match parse.next_int() {
            Ok(n) => n,
            Err(e) => {
                return Err(e);
            },
        };
        let value = match parse.next_bytes() {
            Ok(v) => v,
            Err(e) => {
                return Err(e);
            },
        };
        completed(parse, Command::SetEX { key, seconds, value })
    } else if text_eq(name, "ttl") {
        match read_key(parse) {
            Ok(key) => Ok(Command::TTL { key }),
            Err(e) => Err(e),
        }
    } else if text_eq(name, "expire") {
        let key = match parse.next_string() {
            Ok(k) => k,
            Err(e) => {
                return Err(e);
            },
        };
        let seconds: u64 = match parse.next_int() {
            Ok(n) => n,
            Err(e) => {
                return Err(e);
            },
        };
        completed(parse, Command::Expire { key, seconds })
    } else {
        Err(ParseError::EndOfStream)
    }
}

/// Reads a command on a list of fields from the fields behind its name.
fn read_list_command(name: &str, parse: &mut Parse) -> (r: Result<Command, ParseError>)
    requires
        old(parse).wf(),
    ensures
        final(parse).wf(),
        r is Ok ==> final(parse).remaining().len() == 0,
        same_command(r, parsed_list_command(name@, old(parse).remaining())),
{
    if text_eq(name, "subscribe") {
        match read_some_texts(parse) {
            Ok(channels) => Ok(Command::Subscribe { channels }),
            Err(e) => Err(e),
        }
    } else if text_eq(name, "unsubscribe") {
        match read_texts(parse) {
            Ok(channels) => Ok(Command::Unsubscribe { channels }),
            Err(e) => Err(e),
        }
    } else if text_eq(name, "ping") {
        match parse.next_bytes() {
            Ok(m) => completed(parse, Command::Ping { message: Some(m) }),
            Err(ParseError::EndOfStream) => Ok(Command::Ping { message: None }),
            Err(e) => Err(e),
        }
    } else if text_eq(name, "mget") {
        match read_some_texts(parse) {
            Ok(keys) => Ok(Command::Mget { keys }),
            Err(e) => Err(e),
        }
    } else if text_eq(name, "mset") {
        if parse.is_done() {
            return Err(ParseError::EndOfStream);
        }
        match read_pairs(parse) {
            Ok(pairs) => Ok(Command::Mset { pairs }),
            Err(e) => Err(e),
        }
    } else if text_eq(name, "exists") {
        match read_some_texts(parse) {
            Ok(keys) => Ok(Command::Exists { keys }),
            Err(e) => Err(e),
        }
    } else {
        Err(ParseError::EndOfStream)
    }
}

/// Whether `name` is one of the commands that read or write one key.
fn key_command(name: &str) -> (r: bool)
    ensures
        r == is_key_command(name@),
{
    text_eq(name, "get") || text_eq(name, "publish") || text_eq(name, "set") || text_eq(
        name,
        "setnx",
    ) || text_eq(name, "setex") || text_eq(name, "ttl") || text_eq(name, "expire")
}

/// Whether `name` is one of the commands that take a list of fields.
fn list_command(name: &str) -> (r: bool)
    ensures
        r == is_list_command(name@),
{
    text_eq(name, "subscribe") || text_eq(name, "unsubscribe") || text_eq(name, "ping")
        || text_eq(name, "mget") || text_eq(name, "mset") || text_eq(name, "exists")
}

impl Command {
    /// Reads the command that `name` stands for, given in lower case, from
    /// the fields behind it. A name that stands for none gives `Unknown`,
    /// whatever fields follow.
    pub fn from_name(name: &str, parse: &mut Parse) -> (r: Result<Command, ParseError>)
        requires
            old(parse).wf(),
        ensures
            final(parse).wf(),
            same_command(r, parsed(name@, old(parse).remaining())),
            r is Ok && (is_key_command(name@) || is_list_command(name@))
                ==> final(parse).remaining().len() == 0,
    {
        if key_command(name) {
            read_key_command(name, parse)
        } else if list_command(name) {
            read_list_command(name, parse)
        } else {
            Ok(Command::Unknown { name: name.to_owned() })
        }
    }

    /// Reads a command from a request frame.
    pub fn from_frame(frame: Frame) -> (r: Result<Command, ParseError>)
        ensures
            same_command(r, command_of(frame@)),
    {
        let mut parse = match Parse::new(frame) {
            Ok(p) => p,
            Err(e) => {
                return Err(e);
            },
        };
        let name = match parse.next_string() {
            Ok(n) => n,
            Err(e) => {
                return Err(e);
            },
        };
        let lower = lowercase(name.as_str());
        Command::from_name(lower.as_str(), &mut parse)
    }

    /// The name under which the command is counted.
    pub fn get_name(&self) -> (r: &str)
        ensures
            r@ == name_of(self@),
    {
        match self {
            Command::Get { .. } => "get",
            Command::Publish { .. } => "publish",
            Command::SetCmd(_) => "set",
            Command::SetNX { .. } => "setnx",
            Command::SetEX { .. } => "setex",
            Command::Subscribe { .. } => "subscribe",
            Command::Unsubscribe { .. } => "unsubscribe",
            Command::Ping { .. } => "ping",
            Command::Mget { .. } => "mget",
            Command::Mset { .. } => "mset",
            Command::TTL { .. } => "ttl",
            Command::Expire { .. } => "expire",
            Command::Exists { .. } => "exists",
            Command::Unknown { name } => name.as_str(),
        }
    }
}

/// The frame that answers a request which could not be read as a command,
/// where the connection goes on: an option of `SET` that is not known is
/// answered with an error frame. Every other failure to read a request
/// has no answer and ends the connection.
pub fn answer_to(e: ParseError) -> (r: Option<Frame>)
    ensures
        e == ParseError::UnsupportedOption <==> r is Some,
        r matches Some(f) ==> f@ == Value::Error(
            "currently `SET` only supports the expiration option"@,
        ),
{
    match e {
        ParseError::UnsupportedOption => Some(
            Frame::Error("currently `SET` only supports the expiration option".to_owned()),
        ),
        _ => None,
    }
}

/// The frame that answers a command which the storage backend carried out:
/// its own answer, or an error frame with the reason it gave for failing.
pub fn reply(outcome: Result<Frame, String>) -> (r: Frame)
    ensures
        match outcome {
            Ok(f) => r == f,
            Err(m) => r@ == Value::Error(m@),
        },
{
    match outcome {
        Ok(f) => f,
        Err(m) => Frame::Error(m),
    }
}

} // verus!
