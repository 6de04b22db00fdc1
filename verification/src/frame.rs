//! Frames: the values that travel on the wire, and their mathematical model.

use vstd::prelude::*;
use bytes::Bytes;
use vstd::utf8::*;
use vstd::slice::slice_subrange;
use crate::shim::{bytes_content, bytes_to_vec, bytes_from_slice, text_of};

verus! {

/// One protocol value.
#[derive(Debug, PartialEq)]
pub enum Frame {
    Simple(String),
    Error(String),
    Integer(i64),
    Bulk(Bytes),
    Null,
    Array(Vec<Frame>),
}

/// The mathematical value of a frame.
pub ghost enum Value {
    Simple(Seq<char>),
    Error(Seq<char>),
    Integer(i64),
    Bulk(Seq<u8>),
    Null,
    Array(Seq<Value>),
}

impl View for Frame {
    type V = Value;

    open spec fn view(&self) -> Value {
        value_of(*self)
    }
}

/// The value that a frame stands for.
pub open spec fn value_of(f: Frame) -> Value
    decreases f,
{
    match f {
        Frame::Simple(s) => Value::Simple(s@),
        Frame::Error(s) => Value::Error(s@),
        Frame::Integer(i) => Value::Integer(i),
        Frame::Bulk(b) => Value::Bulk(bytes_content(b)),
        Frame::Null => Value::Null,
        Frame::Array(v) => Value::Array(
            Seq::new(
                v@.len(),
                |i: int|
                    if 0 <= i < v@.len() {
                        value_of(v@[i])
                    } else {
                        Value::Null
                    },
            ),
        ),
    }
}

/// The decimal digits of `n`, most significant first, without leading zeros.
pub open spec fn digits(n: nat) -> Seq<u8>
    decreases n,
{
    if n < 10 {
        seq![(48 + n) as u8]
    } else {
        digits(n / 10).push((48 + n % 10) as u8)
    }
}

/// The decimal text of a signed number: a minus sign where it is negative,
/// then the digits of its magnitude.
pub open spec fn signed_digits(i: int) -> Seq<u8> {
    if i < 0 {
        seq![45u8] + digits((-i) as nat)
    } else {
        digits(i as nat)
    }
}

/// The line terminator: carriage return, line feed.
pub open spec fn crlf() -> Seq<u8> {
    seq![13u8, 10u8]
}

/// The bytes that stand for a value on the wire.
pub open spec fn encoding(v: Value) -> Seq<u8>
    decreases v,
{
    match v {
        Value::Simple(s) => seq![43u8] + encode_utf8(s) + crlf(),
        Value::Error(s) => seq![45u8] + encode_utf8(s) + crlf(),
        Value::Integer(i) => seq![58u8] + signed_digits(i as int) + crlf(),
        Value::Bulk(b) => seq![36u8] + digits(b.len()) + crlf() + b + crlf(),
        Value::Null => seq![36u8, 45u8, 49u8, 13u8, 10u8],
        Value::Array(vs) => seq![42u8] + digits(vs.len()) + crlf() + encoding_all(vs, vs.len()),
    }
}

/// The encodings of the first `n` values of `vs`, one after the other.
pub open spec fn encoding_all(vs: Seq<Value>, n: nat) -> Seq<u8>
    decreases vs, n,
{
    if n == 0 || n > vs.len() {
        Seq::empty()
    } else {
        encoding_all(vs, (n - 1) as nat) + encoding(vs[n - 1])
    }
}

/// Appends the decimal digits of `n` to `out`.
fn write_decimal(out: &mut Vec<u8>, n: u64)
    ensures
        final(out)@ == old(out)@ + digits(n as nat),
    decreases n,
{
    if n < 10 {
        let d: u8 = (48 + n) as u8;
        out.push(d);
        assert(final(out)@ =~= old(out)@ + digits(n as nat));
    } else {
        write_decimal(out, n / 10);
        let d: u8 = (48 + n % 10) as u8;
        out.push(d);
        assert(out@ =~= old(out)@ + digits(n as nat));
    }
}

/// Appends the decimal text of `i` to `out`.
fn write_signed(out: &mut Vec<u8>, i: i64)
    ensures
        final(out)@ == old(out)@ + signed_digits(i as int),
{
    if i < 0 {
        out.push(45u8);
        let m: u64 = if i == i64::MIN {
            9223372036854775808u64
        } else {
            (-i) as u64
        };
        write_decimal(out, m);
        assert(out@ =~= old(out)@ + signed_digits(i as int));
    } else {
        write_decimal(out, i as u64);
    }
}

/// Appends a copy of `data` to `out`.
pub(crate) fn write_all(out: &mut Vec<u8>, data: &[u8])
    ensures
        final(out)@ == old(out)@ + data@,
{
    let mut i: usize = 0;
    while i < data.len()
        invariant
            i <= data.len(),
            out@ == old(out)@ + data@.subrange(0, i as int),
        decreases data.len() - i,
    {
        out.push(data[i]);
        i += 1;
        assert(out@ =~= old(out)@ + data@.subrange(0, i as int));
    }
    assert(data@.subrange(0, i as int) =~= data@);
}

/// Appends the line terminator to `out`.
fn write_crlf(out: &mut Vec<u8>)
    ensures
        final(out)@ == old(out)@ + crlf(),
{
    out.push(13u8);
    out.push(10u8);
    assert(out@ =~= old(out)@ + crlf());
}

/// Appends the encoding of `frame` to `out`.
pub fn encode_into(frame: &Frame, out: &mut Vec<u8>)
    ensures
        final(out)@ == old(out)@ + encoding(frame@),
    decreases frame,
{
    match frame {
        Frame::Simple(s) => {
            out.push(43u8);
            write_all(out, s.as_str().as_bytes());
            write_crlf(out);
            assert(out@ =~= old(out)@ + encoding(frame@));
        },
        Frame::Error(s) => {
            out.push(45u8);
            write_all(out, s.as_str().as_bytes());
            write_crlf(out);
            assert(out@ =~= old(out)@ + encoding(frame@));
        },
        Frame::Integer(i) => {
            out.push(58u8);
            write_signed(out, *i);
            write_crlf(out);
            assert(out@ =~= old(out)@ + encoding(frame@));
        },
        Frame::Bulk(b) => {
            let data = bytes_to_vec(b);
            out.push(36u8);
            write_decimal(out, data.len() as u64);
            write_crlf(out);
            write_all(out, data.as_slice());
            write_crlf(out);
            assert(out@ =~= old(out)@ + encoding(frame@));
        },
        Frame::Null => {
            out.push(36u8);
            out.push(45u8);
            out.push(49u8);
            write_crlf(out);
            assert(out@ =~= old(out)@ + encoding(frame@));
        },
        Frame::Array(items) => {
            out.push(42u8);
            write_decimal(out, items.len() as u64);
            write_crlf(out);
            let ghost head = out@;
            let ghost vs = frame@->Array_0;
            proof {
                lemma_array_view(*items);
            }
            let mut k: usize = 0;
            while k < items.len()
                invariant
                    k <= items.len(),
                    *frame == Frame::Array(*items),
                    vs.len() == items@.len(),
                    forall|i: int| 0 <= i < vs.len() ==> vs[i] == #[trigger] items@[i]@,
                    out@ == head + encoding_all(vs, k as nat),
                decreases items.len() - k,
            {
                proof {
                    vstd::std_specs::vec::axiom_vec_index_decreases(*items, k as int);
                    lemma_item_smaller(*frame, k as int);
                }
                encode_into(&items[k], out);
                k += 1;
                assert(out@ =~= head + encoding_all(vs, k as nat));
            }
            assert(out@ =~= old(out)@ + encoding(frame@));
        },
    }
}

/// The bytes that stand for `frame` on the wire.
pub fn encode(frame: &Frame) -> (out: Vec<u8>)
    ensures
        out@ == encoding(frame@),
{
    let mut out: Vec<u8> = Vec::new();
    encode_into(frame, &mut out);
    assert(out@ =~= encoding(frame@));
    out
}

/// A frame inside an array frame is smaller than the array frame.
pub proof fn lemma_item_smaller(f: Frame, k: int)
    requires
        f is Array,
        0 <= k < f->Array_0@.len(),
    ensures
        decreases_to!(f => f->Array_0@[k]),
{
    match f {
        Frame::Array(v) => {
            vstd::std_specs::vec::axiom_vec_index_decreases(v, k);
            assert(decreases_to!(f => v));
            assert(decreases_to!(v => v[k]));
        },
        _ => {},
    }
}

/// The value of an array frame holds the values of its frames, in order.
pub proof fn lemma_array_view(items: Vec<Frame>)
    ensures
        Frame::Array(items)@ is Array,
        Frame::Array(items)@->Array_0.len() == items@.len(),
        forall|i: int|
            0 <= i < items@.len() ==> (#[trigger] Frame::Array(items)@->Array_0[i]) == items@[i]@,
{
}

/// What a buffer holds at a position: not yet a whole frame, bytes that
/// no frame starts with, or a frame together with the position behind it.
pub ghost enum Decoded {
    Incomplete,
    Malformed,
    Frame(Value, int),
}

/// Why a buffer was refused.
#[derive(Debug, Clone, Copy, PartialEq, Eq)]
pub enum FrameError {
    /// The bytes are not the start of any frame.
    Malformed,
}

/// Whether a line terminator stands at position `i`.
pub open spec fn crlf_at(buf: Seq<u8>, i: int) -> bool {
    0 <= i && i + 1 < buf.len() && buf[i] == 13 && buf[i + 1] == 10
}

/// The position of the first line terminator at or after `from`, or -1
/// where there is none.
pub open spec fn line_end(buf: Seq<u8>, from: int) -> int
    decreases buf.len() - from,
{
    if from < 0 || from + 1 >= buf.len() {
        -1
    } else if crlf_at(buf, from) {
        from
    } else {
        line_end(buf, from + 1)
    }
}

/// The number that a run of decimal digits writes, if it is one.
pub open spec fn decimal_value(s: Seq<u8>) -> Option<nat>
    decreases s.len(),
{
    if s.len() == 0 {
        None
    } else {
        let d = s.last();
        if d < 48 || d > 57 {
            None
        } else if s.len() == 1 {
            Some((d - 48) as nat)
        } else {
            match decimal_value(s.drop_last()) {
                Some(p) => Some((p * 10 + (d - 48)) as nat),
                None => None,
            }
        }
    }
}

/// Whether a header line starts with a minus sign.
pub open spec fn is_negative(line: Seq<u8>) -> bool {
    line.len() > 0 && line[0] == 45
}

/// The magnitude that a header line writes after its sign, where it is a
/// decimal number that fits in 64 bits.
pub open spec fn magnitude(line: Seq<u8>) -> Option<nat> {
    let body = if is_negative(line) {
        line.subrange(1, line.len() as int)
    } else {
        line
    };
    match decimal_value(body) {
        Some(m) => if m <= u64::MAX {
            Some(m)
        } else {
            None
        },
        None => None,
    }
}

/// What `buf` holds at `pos`.
pub open spec fn decode_at(buf: Seq<u8>, pos: int) -> Decoded
    decreases buf.len() - pos, 0nat,
{
    if pos < 0 || pos >= buf.len() {
        Decoded::Incomplete
    } else {
        let tag = buf[pos];
        let e = line_end(buf, pos + 1);
        if tag != 43 && tag != 45 && tag != 58 && tag != 36 && tag != 42 {
            Decoded::Malformed
        } else if e <= pos || e + 2 > buf.len() {
            Decoded::Incomplete
        } else {
            let line = buf.subrange(pos + 1, e);
            if tag == 43 {
                if valid_utf8(line) {
                    Decoded::Frame(Value::Simple(decode_utf8(line)), e + 2)
                } else {
                    Decoded::Malformed
                }
            } else if tag == 45 {
                if valid_utf8(line) {
                    Decoded::Frame(Value::Error(decode_utf8(line)), e + 2)
                } else {
                    Decoded::Malformed
                }
            } else {
                match magnitude(line) {
                    None => Decoded::Malformed,
                    Some(m) => if tag == 58 {
                        if is_negative(line) && m <= 0x8000_0000_0000_0000 {
                            Decoded::Frame(Value::Integer((-m) as i64), e + 2)
                        } else if !is_negative(line) && m <= i64::MAX {
                            Decoded::Frame(Value::Integer(m as i64), e + 2)
                        } else {
                            Decoded::Malformed
                        }
                    } else if tag == 36 {
                        if is_negative(line) {
                            Decoded::Frame(Value::Null, e + 2)
                        } else if buf.len() < e + 2 + m + 2 {
                            Decoded::Incomplete
                        } else if !crlf_at(buf, e + 2 + m) {
                            Decoded::Malformed
                        } else {
                            Decoded::Frame(Value::Bulk(buf.subrange(e + 2, e + 2 + m)), e + 2 + m + 2)
                        }
                    } else {
                        if is_negative(line) {
                            Decoded::Malformed
                        } else {
                            decode_items(buf, e + 2, m, Seq::empty())
                        }
                    },
                }
            }
        }
    }
}

/// What `buf` holds at `pos` where `n` more frames of an array are due and
/// `done` holds those before them.
pub open spec fn decode_items(buf: Seq<u8>, pos: int, n: nat, done: Seq<Value>) -> Decoded
    decreases buf.len() - pos, n + 1,
{
    if n == 0 {
        Decoded::Frame(Value::Array(done), pos)
    } else {
        match decode_at(buf, pos) {
            Decoded::Frame(v, next) => if pos < next <= buf.len() {
                decode_items(buf, next, (n - 1) as nat, done.push(v))
            } else {
                Decoded::Malformed
            },
            other => other,
        }
    }
}

/// The decoding at the start of a buffer: the frame and the number of bytes
/// it takes, or why there is none.
pub open spec fn decoding(buf: Seq<u8>) -> Decoded {
    decode_at(buf, 0)
}

/// Whether an executable result says what a decoding says.
pub open spec fn agrees(r: Result<Option<(Frame, usize)>, FrameError>, d: Decoded) -> bool {
    match d {
        Decoded::Incomplete => r matches Ok(None),
        Decoded::Malformed => r is Err,
        Decoded::Frame(v, next) => r matches Ok(Some((f, n))) && f@ == v && n == next,
    }
}

/// A prefix of a digit run decides for the whole run: where the prefix is
/// no number the run is none, and a run that is a number is at least what
/// its prefix writes.
proof fn lemma_decimal_prefix(s: Seq<u8>, k: int)
    requires
        1 <= k <= s.len(),
    ensures
        match decimal_value(s.subrange(0, k)) {
            None => decimal_value(s) is None,
            Some(p) => decimal_value(s) is Some ==> decimal_value(s)->0 >= p,
        },
    decreases s.len(),
{
    if k == s.len() {
        assert(s.subrange(0, k) =~= s);
    } else {
        lemma_decimal_prefix(s.drop_last(), k);
        assert(s.drop_last().subrange(0, k) =~= s.subrange(0, k));
    }
}

/// Finds the first line terminator at or after `from`.
pub(crate) fn find_line_end(buf: &[u8], from: usize) -> (r: Option<usize>)
    requires
        from <= buf.len(),
    ensures
        match r {
            Some(e) => line_end(buf@, from as int) == e && from <= e && e + 1 < buf.len()
                && crlf_at(buf@, e as int),
            None => line_end(buf@, from as int) == -1,
        },
{
    let mut i: usize = from;
    while buf.len() - i > 1
        invariant
            from <= i <= buf.len(),
            line_end(buf@, from as int) == line_end(buf@, i as int),
        decreases buf.len() - i,
    {
        if buf[i] == 13 && buf[i + 1] == 10 {
            return Some(i);
        }
        i += 1;
    }
    None
}

/// Reads the digit run `buf[from..to]` as a number of 64 bits.
pub(crate) fn parse_decimal(buf: &[u8], from: usize, to: usize) -> (r: Option<u64>)
    requires
        from <= to <= buf.len(),
    ensures
        match decimal_value(buf@.subrange(from as int, to as int)) {
            Some(m) => if m <= u64::MAX {
                r == Some(m as u64)
            } else {
                r is None
            },
            None => r is None,
        },
{
    let ghost s = buf@.subrange(from as int, to as int);
    if from == to {
        return None;
    }
    let mut acc: u64 = 0;
    let mut i: usize = from;
    while i < to
        invariant
            from <= i <= to <= buf.len(),
            s == buf@.subrange(from as int, to as int),
            i == from ==> acc == 0,
            i > from ==> decimal_value(s.subrange(0, i - from)) == Some(acc as nat),
        decreases to - i,
    {
        let d: u8 = buf[i];
        let ghost t = s.subrange(0, i - from + 1);
        proof {
            assert(t.last() == d);
            assert(t.drop_last() =~= s.subrange(0, i - from));
            lemma_decimal_prefix(s, i - from + 1);
        }
        if d < 48 || d > 57 {
            return None;
        }
        let v: u64 = (d - 48) as u64;
        if acc > (u64::MAX - v) / 10 {
            return None;
        }
        acc = acc * 10 + v;
        i += 1;
    }
    assert(s.subrange(0, to - from) =~= s);
    Some(acc)
}

/// Reads the header line `buf[from..to]`: its sign and its magnitude.
fn parse_header(buf: &[u8], from: usize, to: usize) -> (r: Option<(bool, u64)>)
    requires
        from <= to <= buf.len(),
    ensures
        match magnitude(buf@.subrange(from as int, to as int)) {
            Some(m) => r == Some((is_negative(buf@.subrange(from as int, to as int)), m as u64)),
            None => r is None,
        },
{
    let ghost line = buf@.subrange(from as int, to as int);
    if from < to && buf[from] == 45 {
        assert(line.subrange(1, line.len() as int) =~= buf@.subrange(from + 1, to as int));
        match parse_decimal(buf, from + 1, to) {
            Some(m) => Some((true, m)),
            None => None,
        }
    } else {
        match parse_decimal(buf, from, to) {
            Some(m) => Some((false, m)),
            None => None,
        }
    }
}

/// Decodes the frame that starts at `pos`.
fn decode_from(buf: &[u8], pos: usize) -> (r: Result<Option<(Frame, usize)>, FrameError>)
    requires
        pos <= buf.len(),
    ensures
        agrees(r, decode_at(buf@, pos as int)),
        r matches Ok(Some((_, n))) ==> pos < n <= buf.len(),
    decreases buf.len() - pos, 0nat,
{
    if pos >= buf.len() {
        return Ok(None);
    }
    let tag: u8 = buf[pos];
    if tag != 43 && tag != 45 && tag != 58 && tag != 36 && tag != 42 {
        return Err(FrameError::Malformed);
    }
    let e: usize = match find_line_end(buf, pos + 1) {
        Some(e) => e,
        None => {
            return Ok(None);
        },
    };
    let ghost line = buf@.subrange(pos + 1, e as int);
    if tag == 43 || tag == 45 {
        match text_of(slice_subrange(buf, pos + 1, e)) {
            Some(s) => {
                let text = s.to_owned();
                if tag == 43 {
                    Ok(Some((Frame::Simple(text), e + 2)))
                } else {
                    Ok(Some((Frame::Error(text), e + 2)))
                }
            },
            None => Err(FrameError::Malformed),
        }
    } else {
        let (neg, m) = match parse_header(buf, pos + 1, e) {
            Some(h) => h,
            None => {
                return Err(FrameError::Malformed);
            },
        };
        if tag == 58 {
            if neg {
                if m == 0x8000_0000_0000_0000 {
                    Ok(Some((Frame::Integer(i64::MIN), e + 2)))
                } else if m < 0x8000_0000_0000_0000 {
                    Ok(Some((Frame::Integer(-(m as i64)), e + 2)))
                } else {
                    Err(FrameError::Malformed)
                }
            } else if m <= 0x7fff_ffff_ffff_ffff {
                Ok(Some((Frame::Integer(m as i64), e + 2)))
            } else {
                Err(FrameError::Malformed)
            }
        } else if tag == 36 {
            if neg {
                return Ok(Some((Frame::Null, e + 2)));
            }
            let rest: usize = buf.len() - (e + 2);
            if rest < 2 || m > (rest - 2) as u64 {
                return Ok(None);
            }
            let len: usize = m as usize;
            let start: usize = e + 2;
            if buf[start + len] != 13 || buf[start + len + 1] != 10 {
                return Err(FrameError::Malformed);
            }
            let data = bytes_from_slice(slice_subrange(buf, start, start + len));
            Ok(Some((Frame::Bulk(data), start + len + 2)))
        } else {
            if neg {
                return Err(FrameError::Malformed);
            }
            let mut items: Vec<Frame> = Vec::new();
            let ghost mut done: Seq<Value> = Seq::empty();
            let mut cur: usize = e + 2;
            let mut left: u64 = m;
            while left > 0
                invariant
                    pos < cur <= buf.len(),
                    done.len() == items@.len(),
                    forall|i: int| 0 <= i < done.len() ==> done[i] == #[trigger] items@[i]@,
                    decode_at(buf@, pos as int) == decode_items(buf@, cur as int, left as nat, done),
                decreases left,
            {
                match decode_from(buf, cur) {
                    Ok(Some((f, next))) => {
                        proof {
                            done = done.push(f@);
                        }
                        items.push(f);
                        cur = next;
                        left -= 1;
                    },
                    Ok(None) => {
                        return Ok(None);
                    },
                    Err(err) => {
                        return Err(err);
                    },
                }
            }
            proof {
                lemma_array_view(items);
                assert(Frame::Array(items)@->Array_0 =~= done);
            }
            Ok(Some((Frame::Array(items), cur)))
        }
    }
}

/// Decodes the frame at the start of `buf`. `Ok(None)` says that the bytes
/// so far are no whole frame yet: the caller keeps them and asks again when
/// more have come.
pub fn decode(buf: &[u8]) -> (r: Result<Option<(Frame, usize)>, FrameError>)
    ensures
        agrees(r, decoding(buf@)),
        r matches Ok(Some((_, n))) ==> 0 < n <= buf.len(),
{
    decode_from(buf, 0)
}

} // verus!
