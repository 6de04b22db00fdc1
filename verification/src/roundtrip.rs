//! What decoding makes of encoded frames: the whole encoding gives the frame
//! back, and a proper prefix of it is never taken for a frame.

use vstd::prelude::*;
use vstd::utf8::*;
use crate::shim::bytes_len;
use crate::frame::{encode, Frame, find_line_end, lemma_array_view, lemma_item_smaller, Value, Decoded, crlf_at, line_end, digits, signed_digits, decimal_value, is_negative, magnitude, encoding, encoding_all, decode_at, decode_items, decoding, crlf};

verus! {

/// No line terminator stands anywhere in `s`.
pub open spec fn no_crlf(s: Seq<u8>) -> bool {
    forall|i: int| !#[trigger] crlf_at(s, i)
}

/// The values that the wire format can carry: a text holds no line
/// terminator in its UTF-8 form, and every length fits in 64 bits.
pub open spec fn wire_ok(v: Value) -> bool
    decreases v,
{
    match v {
        Value::Simple(s) => no_crlf(encode_utf8(s)),
        Value::Error(s) => no_crlf(encode_utf8(s)),
        Value::Integer(_) => true,
        Value::Bulk(b) => b.len() <= u64::MAX,
        Value::Null => true,
        Value::Array(vs) => vs.len() <= u64::MAX && forall|i: int|
            0 <= i < vs.len() ==> wire_ok(#[trigger] vs[i]),
    }
}

/// Where no line end is found from `from` on, no line terminator stands
/// there.
proof fn lemma_no_line_end(buf: Seq<u8>, from: int)
    requires
        0 <= from,
        line_end(buf, from) == -1,
    ensures
        forall|i: int| from <= i ==> !#[trigger] crlf_at(buf, i),
    decreases buf.len() - from,
{
    if from + 1 < buf.len() {
        lemma_no_line_end(buf, from + 1);
    }
}

/// Whether no line terminator stands anywhere in `bytes`.
pub fn has_no_crlf(bytes: &[u8]) -> (r: bool)
    ensures
        r == no_crlf(bytes@),
{
    match find_line_end(bytes, 0) {
        Some(e) => {
            assert(crlf_at(bytes@, e as int));
            false
        },
        None => {
            proof {
                lemma_no_line_end(bytes@, 0);
            }
            true
        },
    }
}

/// Whether the wire format can carry `frame`: whether decoding its encoding
/// gives it back.
pub fn carries(frame: &Frame) -> (r: bool)
    ensures
        r == wire_ok(frame@),
    decreases frame,
{
    match frame {
        Frame::Simple(s) => has_no_crlf(s.as_str().as_bytes()),
        Frame::Error(s) => has_no_crlf(s.as_str().as_bytes()),
        Frame::Integer(_) => true,
        Frame::Bulk(b) => {
            let n: usize = bytes_len(b);
            n as u128 <= u64::MAX as u128
        },
        Frame::Null => true,
        Frame::Array(items) => {
            proof {
                lemma_array_view(*items);
            }
            let ghost vs = frame@->Array_0;
            let mut k: usize = 0;
            while k < items.len()
                invariant
                    k <= items.len(),
                    *frame == Frame::Array(*items),
                    vs == frame@->Array_0,
                    vs.len() == items@.len(),
                    forall|i: int| 0 <= i < vs.len() ==> vs[i] == #[trigger] items@[i]@,
                    forall|i: int| 0 <= i < k ==> wire_ok(#[trigger] vs[i]),
                decreases items.len() - k,
            {
                proof {
                    lemma_item_smaller(*frame, k as int);
                }
                if !carries(&items[k]) {
                    assert(!wire_ok(vs[k as int]));
                    return false;
                }
                k += 1;
            }
            true
        },
    }
}

/// The first line terminator from `from` on is the line end.
proof fn lemma_line_end_found(buf: Seq<u8>, from: int, e: int)
    requires
        0 <= from <= e,
        crlf_at(buf, e),
        forall|i: int| from <= i < e ==> !#[trigger] crlf_at(buf, i),
    ensures
        line_end(buf, from) == e,
    decreases e - from,
{
    if from < e {
        assert(!crlf_at(buf, from));
        lemma_line_end_found(buf, from + 1, e);
    }
}

/// Where no line terminator stands from `from` on, there is no line end.
proof fn lemma_line_end_none(buf: Seq<u8>, from: int)
    requires
        0 <= from,
        forall|i: int| from <= i ==> !#[trigger] crlf_at(buf, i),
    ensures
        line_end(buf, from) == -1,
    decreases buf.len() - from,
{
    if from + 1 < buf.len() {
        assert(!crlf_at(buf, from));
        lemma_line_end_none(buf, from + 1);
    }
}

/// A header that stands whole at `pos` ends where its line terminator is.
proof fn lemma_header(buf: Seq<u8>, pos: int, line: Seq<u8>)
    requires
        0 <= pos,
        pos + line.len() + 3 <= buf.len(),
        forall|j: int| 0 <= j < line.len() ==> buf[pos + 1 + j] == #[trigger] line[j],
        buf[pos + 1 + line.len()] == 13,
        buf[pos + 2 + line.len()] == 10,
        no_crlf(line),
    ensures
        line_end(buf, pos + 1) == pos + 1 + line.len(),
        buf.subrange(pos + 1, pos + 1 + line.len()) == line,
{
    let e = pos + 1 + line.len();
    assert forall|i: int| pos + 1 <= i < e implies !#[trigger] crlf_at(buf, i) by {
        let j = i - pos - 1;
        assert(buf[i] == line[j]);
        if i + 1 < e {
            assert(buf[i + 1] == line[j + 1]);
            assert(!crlf_at(line, j));
        }
    }
    lemma_line_end_found(buf, pos + 1, e);
    assert forall|j: int| 0 <= j < line.len() implies buf.subrange(pos + 1, e)[j] == line[j] by {
        assert(buf[pos + 1 + j] == line[j]);
    }
    assert(buf.subrange(pos + 1, e) =~= line);
}

/// A header that the buffer cuts short has no line end yet.
proof fn lemma_header_cut(buf: Seq<u8>, pos: int, line: Seq<u8>)
    requires
        0 <= pos < buf.len(),
        buf.len() < pos + line.len() + 3,
        forall|j: int|
            0 <= j < line.len() && pos + 1 + j < buf.len() ==> buf[pos + 1 + j] == #[trigger] line[j],
        pos + 1 + line.len() < buf.len() ==> buf[pos + 1 + line.len()] == 13,
        no_crlf(line),
    ensures
        line_end(buf, pos + 1) == -1,
{
    assert forall|i: int| pos + 1 <= i implies !#[trigger] crlf_at(buf, i) by {
        if i + 1 < buf.len() {
            let j = i - pos - 1;
            if j + 1 < line.len() {
                assert(buf[i] == line[j]);
                assert(buf[i + 1] == line[j + 1]);
                assert(!crlf_at(line, j));
            }
        }
    }
    lemma_line_end_none(buf, pos + 1);
}

/// The digits of a number are digits, at least one, and write that number.
pub proof fn lemma_digits(n: nat)
    ensures
        digits(n).len() >= 1,
        forall|j: int| 0 <= j < digits(n).len() ==> 48 <= #[trigger] digits(n)[j] <= 57,
        decimal_value(digits(n)) == Some(n),
        no_crlf(digits(n)),
    decreases n,
{
    if n >= 10 {
        lemma_digits(n / 10);
        assert(digits(n).drop_last() =~= digits(n / 10));
    }
    assert forall|i: int| !#[trigger] crlf_at(digits(n), i) by {
        if 0 <= i < digits(n).len() {
            assert(48 <= digits(n)[i]);
        }
    }
}

/// The header line of a signed number reads back as its sign and magnitude.
proof fn lemma_signed_digits(i: int)
    requires
        -0x8000_0000_0000_0000 <= i <= u64::MAX,
    ensures
        no_crlf(signed_digits(i)),
        is_negative(signed_digits(i)) == (i < 0),
        magnitude(signed_digits(i)) == Some((if i < 0 { -i } else { i }) as nat),
{
    let line = signed_digits(i);
    if i < 0 {
        lemma_digits((-i) as nat);
        assert(line.subrange(1, line.len() as int) =~= digits((-i) as nat));
        assert forall|k: int| !#[trigger] crlf_at(line, k) by {
            if 1 <= k < line.len() {
                assert(line[k] == digits((-i) as nat)[k - 1]);
            }
        }
    } else {
        lemma_digits(i as nat);
        assert(48 <= digits(i as nat)[0]);
    }
}

/// Every encoding has at least its tag.
proof fn lemma_encoding_len(v: Value)
    ensures
        encoding(v).len() >= 1,
{
}

/// The encodings of the first `j` values open those of the first `n`.
proof fn lemma_encoding_all_prefix(vs: Seq<Value>, j: nat, n: nat)
    requires
        j <= n <= vs.len(),
    ensures
        encoding_all(vs, j).len() <= encoding_all(vs, n).len(),
        encoding_all(vs, n).subrange(0, encoding_all(vs, j).len() as int) == encoding_all(vs, j),
    decreases n - j,
{
    if j < n {
        lemma_encoding_all_prefix(vs, j, (n - 1) as nat);
        assert(encoding_all(vs, n).subrange(0, encoding_all(vs, j).len() as int)
            =~= encoding_all(vs, (n - 1) as nat).subrange(0, encoding_all(vs, j).len() as int));
    } else {
        assert(encoding_all(vs, n).subrange(0, encoding_all(vs, j).len() as int) =~= encoding_all(
            vs,
            j,
        ));
    }
}

/// Where a tag, a line, a line terminator and a body stand in `buf` at
/// `pos`: the line ends at its terminator, and line and body read back.
proof fn lemma_framed(buf: Seq<u8>, pos: int, tag: u8, line: Seq<u8>, body: Seq<u8>)
    requires
        0 <= pos,
        no_crlf(line),
        pos + (seq![tag] + line + crlf() + body).len() <= buf.len(),
        buf.subrange(pos, pos + (seq![tag] + line + crlf() + body).len()) == seq![tag] + line
            + crlf() + body,
    ensures
        buf[pos] == tag,
        line_end(buf, pos + 1) == pos + 1 + line.len(),
        buf.subrange(pos + 1, pos + 1 + line.len()) == line,
        pos + line.len() + 3 + body.len() <= buf.len(),
        buf.subrange(pos + line.len() + 3, pos + line.len() + 3 + body.len()) == body,
        forall|j: int| 0 <= j < body.len() ==> buf[pos + line.len() + 3 + j] == #[trigger] body[j],
{
    let enc = seq![tag] + line + crlf() + body;
    let n = line.len() as int;
    assert forall|j: int| 0 <= j < enc.len() implies buf[pos + j] == #[trigger] enc[j] by {
        assert(buf.subrange(pos, pos + enc.len())[j] == buf[pos + j]);
    }
    assert(enc[0] == tag);
    assert forall|j: int| 0 <= j < n implies buf[pos + 1 + j] == #[trigger] line[j] by {
        assert(enc[1 + j] == line[j]);
    }
    assert(enc[1 + n] == 13);
    assert(enc[2 + n] == 10);
    lemma_header(buf, pos, line);
    assert forall|j: int| 0 <= j < body.len() implies buf[pos + n + 3 + j] == #[trigger] body[j] by {
        assert(enc[n + 3 + j] == body[j]);
    }
    assert(buf.subrange(pos + n + 3, pos + n + 3 + body.len()) =~= body);
}

/// A simple or an error frame that stands whole at `pos` reads back.
proof fn lemma_decode_text(s: Seq<char>, tag: u8, buf: Seq<u8>, pos: int)
    requires
        tag == 43 || tag == 45,
        no_crlf(encode_utf8(s)),
        0 <= pos,
        pos + encode_utf8(s).len() + 3 <= buf.len(),
        buf.subrange(pos, pos + encode_utf8(s).len() + 3) == seq![tag] + encode_utf8(s) + crlf(),
    ensures
        decode_at(buf, pos) == Decoded::Frame(
            if tag == 43 {
                Value::Simple(s)
            } else {
                Value::Error(s)
            },
            pos + encode_utf8(s).len() + 3,
        ),
{
    let line = encode_utf8(s);
    assert(seq![tag] + line + crlf() + Seq::<u8>::empty() =~= seq![tag] + line + crlf());
    lemma_framed(buf, pos, tag, line, Seq::empty());
    encode_utf8_valid_utf8(s);
    encode_utf8_decode_utf8(s);
}

/// An integer frame that stands whole at `pos` reads back.
proof fn lemma_decode_integer(i: i64, buf: Seq<u8>, pos: int)
    requires
        0 <= pos,
        pos + encoding(Value::Integer(i)).len() <= buf.len(),
        buf.subrange(pos, pos + encoding(Value::Integer(i)).len()) == encoding(Value::Integer(i)),
    ensures
        decode_at(buf, pos) == Decoded::Frame(
            Value::Integer(i),
            pos + encoding(Value::Integer(i)).len(),
        ),
{
    let line = signed_digits(i as int);
    lemma_signed_digits(i as int);
    assert(seq![58u8] + line + crlf() + Seq::<u8>::empty() =~= seq![58u8] + line + crlf());
    lemma_framed(buf, pos, 58, line, Seq::empty());
}

/// A bulk frame that stands whole at `pos` reads back.
proof fn lemma_decode_bulk(b: Seq<u8>, buf: Seq<u8>, pos: int)
    requires
        b.len() <= u64::MAX,
        0 <= pos,
        pos + encoding(Value::Bulk(b)).len() <= buf.len(),
        buf.subrange(pos, pos + encoding(Value::Bulk(b)).len()) == encoding(Value::Bulk(b)),
    ensures
        decode_at(buf, pos) == Decoded::Frame(Value::Bulk(b), pos + encoding(Value::Bulk(b)).len()),
{
    let line = digits(b.len());
    lemma_digits(b.len());
    lemma_signed_digits(b.len() as int);
    let body = b + crlf();
    assert(seq![36u8] + line + crlf() + body =~= encoding(Value::Bulk(b)));
    lemma_framed(buf, pos, 36, line, body);
    let start = pos + line.len() + 3;
    assert(body[b.len() as int] == 13);
    assert(body[(b.len() + 1) as int] == 10);
    assert forall|j: int| 0 <= j < b.len() implies buf.subrange(start, start + b.len())[j]
        == b[j] by {
        assert(body[j] == b[j]);
    }
    assert(buf.subrange(start, start + b.len()) =~= b);
}

/// The null frame that stands whole at `pos` reads back.
proof fn lemma_decode_null(buf: Seq<u8>, pos: int)
    requires
        0 <= pos,
        pos + 5 <= buf.len(),
        buf.subrange(pos, pos + 5) == encoding(Value::Null),
    ensures
        decode_at(buf, pos) == Decoded::Frame(Value::Null, pos + 5),
{
    let line = seq![45u8, 49u8];
    assert(seq![36u8] + line + crlf() + Seq::<u8>::empty() =~= encoding(Value::Null));
    assert(line.subrange(1, 2) =~= digits(1));
    lemma_digits(1);
    assert forall|k: int| !#[trigger] crlf_at(line, k) by {}
    lemma_framed(buf, pos, 36, line, Seq::empty());
}

/// Where the encoding of `v` stands in `buf` at `pos`, the decoding there is
/// `v`, and it ends where the encoding ends.
pub proof fn lemma_decode_encoded(v: Value, buf: Seq<u8>, pos: int)
    requires
        wire_ok(v),
        0 <= pos,
        pos + encoding(v).len() <= buf.len(),
        buf.subrange(pos, pos + encoding(v).len()) == encoding(v),
    ensures
        decode_at(buf, pos) == Decoded::Frame(v, pos + encoding(v).len()),
    decreases v, 0nat,
{
    match v {
        Value::Simple(s) => {
            lemma_decode_text(s, 43, buf, pos);
        },
        Value::Error(s) => {
            lemma_decode_text(s, 45, buf, pos);
        },
        Value::Integer(i) => {
            lemma_decode_integer(i, buf, pos);
        },
        Value::Bulk(b) => {
            lemma_decode_bulk(b, buf, pos);
        },
        Value::Null => {
            lemma_decode_null(buf, pos);
        },
        Value::Array(vs) => {
            let line = digits(vs.len());
            lemma_digits(vs.len());
            lemma_signed_digits(vs.len() as int);
            let body = encoding_all(vs, vs.len());
            lemma_framed(buf, pos, 42, line, body);
            let start = pos + line.len() + 3;
            lemma_decode_items_encoded(vs, 0, buf, start);
            assert(vs.subrange(0, 0) =~= Seq::<Value>::empty());
        },
    }
}

/// Where the encodings of `vs` stand in `buf` at `start`, decoding the
/// frames from the `k`-th on completes the array `vs`.
proof fn lemma_decode_items_encoded(vs: Seq<Value>, k: nat, buf: Seq<u8>, start: int)
    requires
        forall|i: int| 0 <= i < vs.len() ==> wire_ok(#[trigger] vs[i]),
        k <= vs.len(),
        0 <= start,
        start + encoding_all(vs, vs.len()).len() <= buf.len(),
        buf.subrange(start, start + encoding_all(vs, vs.len()).len()) == encoding_all(
            vs,
            vs.len(),
        ),
    ensures
        decode_items(
            buf,
            start + encoding_all(vs, k).len(),
            (vs.len() - k) as nat,
            vs.subrange(0, k as int),
        ) == Decoded::Frame(Value::Array(vs), start + encoding_all(vs, vs.len()).len()),
    decreases vs, vs.len() - k,
{
    let n = vs.len();
    let all = encoding_all(vs, n);
    if k == n {
        assert(vs.subrange(0, k as int) =~= vs);
    } else {
        let here = start + encoding_all(vs, k).len();
        let item = encoding(vs[k as int]);
        lemma_encoding_all_prefix(vs, k + 1, n);
        lemma_encoding_len(vs[k as int]);
        let upto = encoding_all(vs, k + 1);
        assert(upto == encoding_all(vs, k) + item);
        assert forall|j: int| 0 <= j < item.len() implies buf.subrange(here, here + item.len())[j]
            == item[j] by {
            let t = encoding_all(vs, k).len() + j;
            assert(buf.subrange(start, start + all.len())[t] == all[t]);
            assert(all.subrange(0, upto.len() as int)[t] == all[t]);
            assert(upto[t] == item[j]);
        }
        assert(buf.subrange(here, here + item.len()) =~= item);
        lemma_decode_encoded(vs[k as int], buf, here);
        lemma_decode_items_encoded(vs, k + 1, buf, start);
        assert(vs.subrange(0, k as int).push(vs[k as int]) =~= vs.subrange(0, (k + 1) as int));
    }
}

/// Where the buffer ends inside a tag, a line, a line terminator and a
/// body that start at `pos`: either the line has no end yet, or line and
/// the part of the body that is there read back.
proof fn lemma_framed_cut(buf: Seq<u8>, pos: int, tag: u8, line: Seq<u8>, body: Seq<u8>)
    requires
        0 <= pos < buf.len(),
        no_crlf(line),
        buf.len() - pos < (seq![tag] + line + crlf() + body).len(),
        buf.subrange(pos, buf.len() as int) == (seq![tag] + line + crlf() + body).subrange(
            0,
            buf.len() - pos,
        ),
    ensures
        buf[pos] == tag,
        buf.len() < pos + line.len() + 3 ==> line_end(buf, pos + 1) == -1,
        buf.len() >= pos + line.len() + 3 ==> line_end(buf, pos + 1) == pos + 1 + line.len()
            && buf.subrange(pos + 1, pos + 1 + line.len()) == line,
        forall|j: int|
            0 <= j < body.len() && pos + line.len() + 3 + j < buf.len() ==> buf[pos + line.len() + 3
                + j] == #[trigger] body[j],
{
    let enc = seq![tag] + line + crlf() + body;
    let n = line.len() as int;
    let have = buf.len() - pos;
    assert forall|j: int| 0 <= j < have implies buf[pos + j] == #[trigger] enc[j] by {
        assert(buf.subrange(pos, buf.len() as int)[j] == buf[pos + j]);
        assert(enc.subrange(0, have)[j] == enc[j]);
    }
    assert(enc[0] == tag);
    assert forall|j: int| 0 <= j < n && pos + 1 + j < buf.len() implies buf[pos + 1 + j]
        == #[trigger] line[j] by {
        assert(enc[1 + j] == line[j]);
    }
    if have < n + 3 {
        if pos + 1 + n < buf.len() {
            assert(enc[1 + n] == 13);
        }
        lemma_header_cut(buf, pos, line);
    } else {
        assert(enc[1 + n] == 13);
        assert(enc[2 + n] == 10);
        lemma_header(buf, pos, line);
    }
    assert forall|j: int| 0 <= j < body.len() && pos + n + 3 + j < buf.len() implies buf[pos + n
        + 3 + j] == #[trigger] body[j] by {
        assert(enc[n + 3 + j] == body[j]);
    }
}

/// Where the buffer ends inside the encoding of `v` that starts at `pos`,
/// no frame is decoded there yet.
pub proof fn lemma_decode_cut(v: Value, buf: Seq<u8>, pos: int)
    requires
        wire_ok(v),
        0 <= pos <= buf.len(),
        buf.len() - pos < encoding(v).len(),
        buf.subrange(pos, buf.len() as int) == encoding(v).subrange(0, buf.len() - pos),
    ensures
        decode_at(buf, pos) == Decoded::Incomplete,
    decreases v, 0nat,
{
    if pos < buf.len() {
        let none = Seq::<u8>::empty();
        match v {
            Value::Simple(s) => {
                let line = encode_utf8(s);
                assert(seq![43u8] + line + crlf() + none =~= encoding(v));
                lemma_framed_cut(buf, pos, 43, line, none);
            },
            Value::Error(s) => {
                let line = encode_utf8(s);
                assert(seq![45u8] + line + crlf() + none =~= encoding(v));
                lemma_framed_cut(buf, pos, 45, line, none);
            },
            Value::Integer(i) => {
                let line = signed_digits(i as int);
                lemma_signed_digits(i as int);
                assert(seq![58u8] + line + crlf() + none =~= encoding(v));
                lemma_framed_cut(buf, pos, 58, line, none);
            },
            Value::Bulk(b) => {
                let line = digits(b.len());
                lemma_digits(b.len());
                lemma_signed_digits(b.len() as int);
                let body = b + crlf();
                assert(seq![36u8] + line + crlf() + body =~= encoding(v));
                lemma_framed_cut(buf, pos, 36, line, body);
            },
            Value::Null => {
                let line = seq![45u8, 49u8];
                assert(seq![36u8] + line + crlf() + none =~= encoding(v));
                assert forall|k: int| !#[trigger] crlf_at(line, k) by {}
                lemma_framed_cut(buf, pos, 36, line, none);
            },
            Value::Array(vs) => {
                let line = digits(vs.len());
                lemma_digits(vs.len());
                lemma_signed_digits(vs.len() as int);
                let body = encoding_all(vs, vs.len());
                lemma_framed_cut(buf, pos, 42, line, body);
                let start = pos + line.len() + 3;
                if buf.len() >= start {
                    assert(buf.subrange(start, buf.len() as int) =~= body.subrange(
                        0,
                        buf.len() - start,
                    ));
                    lemma_decode_items_cut(vs, 0, buf, start, Seq::empty());
                }
            },
        }
    }
}

/// Where the buffer ends inside the encodings of `vs` that start at
/// `start`, at or behind the `k`-th of them, the array is not complete.
proof fn lemma_decode_items_cut(
    vs: Seq<Value>,
    k: nat,
    buf: Seq<u8>,
    start: int,
    done: Seq<Value>,
)
    requires
        forall|i: int| 0 <= i < vs.len() ==> wire_ok(#[trigger] vs[i]),
        k <= vs.len(),
        0 <= start,
        start + encoding_all(vs, k).len() <= buf.len(),
        buf.len() < start + encoding_all(vs, vs.len()).len(),
        buf.subrange(start, buf.len() as int) == encoding_all(vs, vs.len()).subrange(
            0,
            buf.len() - start,
        ),
    ensures
        decode_items(buf, start + encoding_all(vs, k).len(), (vs.len() - k) as nat, done)
            == Decoded::Incomplete,
    decreases vs, vs.len() - k,
{
    let n = vs.len();
    let all = encoding_all(vs, n);
    let here = start + encoding_all(vs, k).len();
    let item = encoding(vs[k as int]);
    let upto = encoding_all(vs, k + 1);
    lemma_encoding_all_prefix(vs, k + 1, n);
    lemma_encoding_len(vs[k as int]);
    assert(upto == encoding_all(vs, k) + item);
    assert forall|j: int| 0 <= j < item.len() && here + j < buf.len() implies buf[here + j]
        == #[trigger] item[j] by {
        let t = encoding_all(vs, k).len() + j;
        assert(buf.subrange(start, buf.len() as int)[t] == buf[start + t]);
        assert(all.subrange(0, buf.len() - start)[t] == all[t]);
        assert(all.subrange(0, upto.len() as int)[t] == all[t]);
        assert(upto[t] == item[j]);
    }
    if here + item.len() <= buf.len() {
        assert(buf.subrange(here, here + item.len()) =~= item);
        lemma_decode_encoded(vs[k as int], buf, here);
        lemma_decode_items_cut(vs, k + 1, buf, start, done.push(vs[k as int]));
    } else {
        assert(buf.subrange(here, buf.len() as int) =~= item.subrange(0, buf.len() - here));
        lemma_decode_cut(vs[k as int], buf, here);
    }
}

/// Decoding the encoding of a value gives the value back and takes the whole
/// encoding, whatever bytes follow it.
pub proof fn decode_inverts_encode(v: Value, rest: Seq<u8>)
    requires
        wire_ok(v),
    ensures
        decoding(encoding(v) + rest) == Decoded::Frame(v, encoding(v).len() as int),
{
    let buf = encoding(v) + rest;
    assert(buf.subrange(0, encoding(v).len() as int) =~= encoding(v));
    lemma_decode_encoded(v, buf, 0);
}

/// A proper prefix of the encoding of a value is never taken for a frame:
/// decoding it asks for more bytes.
pub proof fn prefix_is_incomplete(v: Value, cut: int)
    requires
        wire_ok(v),
        0 <= cut < encoding(v).len(),
    ensures
        decoding(encoding(v).subrange(0, cut)) == Decoded::Incomplete,
{
    let buf = encoding(v).subrange(0, cut);
    assert(buf.subrange(0, buf.len() as int) =~= encoding(v).subrange(0, buf.len() - 0));
    lemma_decode_cut(v, buf, 0);
}

/// A frame that arrives in two reads is not taken for a frame after the
/// first and arrives whole with the second, wherever the cut falls.
pub proof fn split_frame_arrives_whole(v: Value, cut: int)
    requires
        wire_ok(v),
        0 <= cut < encoding(v).len(),
    ensures
        decoding(encoding(v).subrange(0, cut)) == Decoded::Incomplete,
        decoding(encoding(v).subrange(0, cut) + encoding(v).subrange(cut, encoding(v).len() as int))
            == Decoded::Frame(v, encoding(v).len() as int),
{
    let enc = encoding(v);
    prefix_is_incomplete(v, cut);
    decode_inverts_encode(v, Seq::empty());
    assert(enc.subrange(0, cut) + enc.subrange(cut, enc.len() as int) =~= enc + Seq::<u8>::empty());
}

/// The encoding of `frame` where the wire format can carry it, and nothing
/// where it cannot. What is handed out decodes to `frame` again and is taken
/// whole.
pub fn encode_checked(frame: &Frame) -> (r: Option<Vec<u8>>)
    ensures
        match r {
            Some(out) => wire_ok(frame@) && out@ == encoding(frame@) && decoding(out@)
                == Decoded::Frame(frame@, out@.len() as int),
            None => !wire_ok(frame@),
        },
{
    if carries(frame) {
        let out = encode(frame);
        proof {
            decode_inverts_encode(frame@, Seq::empty());
            assert(out@ + Seq::<u8>::empty() =~= out@);
        }
        Some(out)
    } else {
        None
    }
}

} // verus!
