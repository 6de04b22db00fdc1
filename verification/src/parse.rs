//! A forward-only reader over the fields of one array frame.

use vstd::prelude::*;
use vstd::utf8::*;
use bytes::Bytes;
use crate::frame::{Frame, Value, decimal_value, parse_decimal};
use crate::shim::{bytes_content, bytes_clone, bytes_from_slice, bytes_to_vec, text_of};

verus! {

/// Why the fields of a request could not be read as a command.
#[derive(Debug, Clone, Copy, PartialEq, Eq, Structural)]
pub enum ParseError {
    /// A field was asked for and none is left.
    EndOfStream,
    /// The request is not an array frame.
    NotAnArray,
    /// The field is a frame of a kind that does not convert to what was
    /// asked for.
    WrongType,
    /// The field was asked for as text and its bytes are not UTF-8.
    InvalidText,
    /// The field was asked for as a number and is not one that fits.
    InvalidNumber,
    /// Fields are left behind a complete command.
    TrailingFields,
    /// The word behind the value of `SET` is no option that it knows.
    UnsupportedOption,
}

/// The text that a field gives: a simple frame as it is, a bulk frame where
/// its bytes are UTF-8.
pub open spec fn text_of_value(v: Value) -> Result<Seq<char>, ParseError> {
    match v {
        Value::Simple(s) => Ok(s),
        Value::Bulk(b) => if valid_utf8(b) {
            Ok(decode_utf8(b))
        } else {
            Err(ParseError::InvalidText)
        },
        _ => Err(ParseError::WrongType),
    }
}

/// The bytes that a field gives: those of a bulk frame, or the UTF-8 form of
/// a simple frame.
pub open spec fn bytes_of_value(v: Value) -> Result<Seq<u8>, ParseError> {
    match v {
        Value::Simple(s) => Ok(encode_utf8(s)),
        Value::Bulk(b) => Ok(b),
        _ => Err(ParseError::WrongType),
    }
}

/// The number that a field gives: a non-negative integer frame, or a bulk
/// frame that holds the decimal digits of a number of 64 bits.
pub open spec fn int_of_value(v: Value) -> Result<u64, ParseError> {
    match v {
        Value::Integer(i) => if i >= 0 {
            Ok(i as u64)
        } else {
            Err(ParseError::InvalidNumber)
        },
        Value::Bulk(b) => match decimal_value(b) {
            Some(m) => if m <= u64::MAX {
                Ok(m as u64)
            } else {
                Err(ParseError::InvalidNumber)
            },
            None => Err(ParseError::InvalidNumber),
        },
        _ => Err(ParseError::WrongType),
    }
}

/// The next field as text, or `EndOfStream` where none is left.
pub open spec fn next_text(fields: Seq<Value>) -> Result<Seq<char>, ParseError> {
    if fields.len() == 0 {
        Err(ParseError::EndOfStream)
    } else {
        text_of_value(fields[0])
    }
}

/// The next field as bytes, or `EndOfStream` where none is left.
pub open spec fn next_bytes(fields: Seq<Value>) -> Result<Seq<u8>, ParseError> {
    if fields.len() == 0 {
        Err(ParseError::EndOfStream)
    } else {
        bytes_of_value(fields[0])
    }
}

/// The next field as a number, or `EndOfStream` where none is left.
pub open spec fn next_int(fields: Seq<Value>) -> Result<u64, ParseError> {
    if fields.len() == 0 {
        Err(ParseError::EndOfStream)
    } else {
        int_of_value(fields[0])
    }
}

/// The fields behind the next one; nothing where none is left.
pub open spec fn behind(fields: Seq<Value>) -> Seq<Value> {
    if fields.len() == 0 {
        fields
    } else {
        fields.drop_first()
    }
}

/// Whether a text result says what its model says.
pub open spec fn same_text(r: Result<String, ParseError>, m: Result<Seq<char>, ParseError>) -> bool {
    match m {
        Ok(s) => r matches Ok(t) && t@ == s,
        Err(e) => r == Err::<String, ParseError>(e),
    }
}

/// Whether a bytes result says what its model says.
pub open spec fn same_bytes(r: Result<Bytes, ParseError>, m: Result<Seq<u8>, ParseError>) -> bool {
    match m {
        Ok(s) => r matches Ok(t) && bytes_content(t) == s,
        Err(e) => r == Err::<Bytes, ParseError>(e),
    }
}

/// Whether two texts are the same, character for character.
pub fn text_eq(a: &str, b: &str) -> (r: bool)
    ensures
        r == (a@ == b@),
{
    let x = a.as_bytes();
    let y = b.as_bytes();
    if x.len() != y.len() {
        return false;
    }
    let mut i: usize = 0;
    while i < x.len()
        invariant
            i <= x.len(),
            x.len() == y.len(),
            x@ == encode_utf8(a@),
            y@ == encode_utf8(b@),
            forall|j: int| 0 <= j < i ==> x@[j] == y@[j],
        decreases x.len() - i,
    {
        if x[i] != y[i] {
            return false;
        }
        i += 1;
    }
    proof {
        assert(x@ =~= y@);
        encode_utf8_decode_utf8(a@);
        encode_utf8_decode_utf8(b@);
    }
    true
}

/// The cursor: the fields of a request and how many of them were read.
pub struct Parse {
    parts: Vec<Frame>,
    pos: usize,
}

impl Parse {
    /// The cursor stands inside its fields or just behind them.
    pub closed spec fn wf(&self) -> bool {
        self.pos <= self.parts@.len()
    }

    /// The fields that were not read yet, in order.
    pub closed spec fn remaining(&self) -> Seq<Value> {
        Seq::new((self.parts@.len() - self.pos) as nat, |i: int| self.parts@[self.pos + i]@)
    }

    /// A cursor before the first field of `frame`, which must be an array.
    pub fn new(frame: Frame) -> (r: Result<Parse, ParseError>)
        ensures
            match frame@ {
                Value::Array(vs) => r matches Ok(p) && p.wf() && p.remaining() == vs,
                _ => r matches Err(e) && e == ParseError::NotAnArray,
            },
    {
        match frame {
            Frame::Array(parts) => {
                let p = Parse { parts, pos: 0 };
                assert(p.remaining() =~= frame@->Array_0);
                Ok(p)
            },
            _ => Err(ParseError::NotAnArray),
        }
    }

    /// Reads the next field as text and moves behind it.
    pub fn next_string(&mut self) -> (r: Result<String, ParseError>)
        requires
            old(self).wf(),
        ensures
            final(self).wf(),
            final(self).remaining() == behind(old(self).remaining()),
            same_text(r, next_text(old(self).remaining())),
    {
        if self.pos >= self.parts.len() {
            return Err(ParseError::EndOfStream);
        }
        let r = match &self.parts[self.pos] {
            Frame::Simple(s) => Ok(s.clone()),
            Frame::Bulk(b) => {
                let data = bytes_to_vec(b);
                match text_of(data.as_slice()) {
                    Some(s) => Ok(s.to_owned()),
                    None => Err(ParseError::InvalidText),
                }
            },
            _ => Err(ParseError::WrongType),
        };
        assert(old(self).remaining()[0] == self.parts@[self.pos as int]@);
        self.pos += 1;
        assert(self.remaining() =~= old(self).remaining().drop_first());
        r
    }

    /// Reads the next field as raw bytes and moves behind it.
    pub fn next_bytes(&mut self) -> (r: Result<Bytes, ParseError>)
        requires
            old(self).wf(),
        ensures
            final(self).wf(),
            final(self).remaining() == behind(old(self).remaining()),
            same_bytes(r, next_bytes(old(self).remaining())),
    {
        if self.pos >= self.parts.len() {
            return Err(ParseError::EndOfStream);
        }
        let r = match &self.parts[self.pos] {
            Frame::Simple(s) => Ok(bytes_from_slice(s.as_str().as_bytes())),
            Frame::Bulk(b) => Ok(bytes_clone(b)),
            _ => Err(ParseError::WrongType),
        };
        assert(old(self).remaining()[0] == self.parts@[self.pos as int]@);
        self.pos += 1;
        assert(self.remaining() =~= old(self).remaining().drop_first());
        r
    }

    /// Reads the next field as a number and moves behind it.
    pub fn next_int(&mut self) -> (r: Result<u64, ParseError>)
        requires
            old(self).wf(),
        ensures
            final(self).wf(),
            final(self).remaining() == behind(old(self).remaining()),
            r == next_int(old(self).remaining()),
    {
        if self.pos >= self.parts.len() {
            return Err(ParseError::EndOfStream);
        }
        let r = match &self.parts[self.pos] {
            Frame::Integer(i) => if *i >= 0 {
                Ok(*i as u64)
            } else {
                Err(ParseError::InvalidNumber)
            },
            Frame::Bulk(b) => {
                let data = bytes_to_vec(b);
                assert(data@.subrange(0, data@.len() as int) =~= data@);
                match parse_decimal(data.as_slice(), 0, data.len()) {
                    Some(m) => Ok(m),
                    None => Err(ParseError::InvalidNumber),
                }
            },
            _ => Err(ParseError::WrongType),
        };
        assert(old(self).remaining()[0] == self.parts@[self.pos as int]@);
        self.pos += 1;
        assert(self.remaining() =~= old(self).remaining().drop_first());
        r
    }

    /// Whether no field is left.
    pub fn is_done(&self) -> (r: bool)
        requires
            self.wf(),
        ensures
            r == (self.remaining().len() == 0),
    {
        self.pos >= self.parts.len()
    }

    /// Succeeds exactly where every field was read.
    pub fn finish(&self) -> (r: Result<(), ParseError>)
        requires
            self.wf(),
        ensures
            r == (if self.remaining().len() == 0 {
                Ok::<(), ParseError>(())
            } else {
                Err::<(), ParseError>(ParseError::TrailingFields)
            }),
    {
        if self.pos >= self.parts.len() {
            Ok(())
        } else {
            Err(ParseError::TrailingFields)
        }
    }
}

} // verus!
