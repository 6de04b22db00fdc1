//! The frames that answer commands, from what the storage backend and the
//! channel registry report.

use vstd::prelude::*;
use bytes::Bytes;
use crate::frame::{lemma_array_view, Frame, Value};
use crate::shim::{bytes_content, bytes_clone};

verus! {

/// What the storage backend reports of a key's time to live.
#[derive(Debug, Clone, Copy, PartialEq, Eq, Structural)]
pub enum Ttl {
    /// The key expires after this many seconds.
    Remaining(u64),
    /// The key is there and does not expire.
    NoExpiry,
    /// The key is not there.
    Absent,
}

/// The number of a count as an integer frame holds it: the count itself, or
/// the largest integer where it is beyond that.
pub open spec fn capped(n: u64) -> i64 {
    if n <= i64::MAX {
        n as i64
    } else {
        i64::MAX
    }
}

/// The value of the frame that stands for a stored value or its absence.
pub open spec fn value_or_null(v: Option<Bytes>) -> Value {
    match v {
        Some(b) => Value::Bulk(bytes_content(b)),
        None => Value::Null,
    }
}

/// The marker of a write that succeeded.
pub fn ok_reply() -> (r: Frame)
    ensures
        r@ == Value::Simple("OK"@),
{
    Frame::Simple("OK".to_owned())
}

/// The answer to `GET`: the value, or null where the key is absent.
pub fn value_reply(value: &Option<Bytes>) -> (r: Frame)
    ensures
        r@ == value_or_null(*value),
{
    match value {
        Some(b) => Frame::Bulk(bytes_clone(b)),
        None => Frame::Null,
    }
}

/// The answer to `MGET`: for each key its value or null, in the order of
/// the keys.
pub fn values_reply(values: &Vec<Option<Bytes>>) -> (r: Frame)
    ensures
        r@ == Value::Array(Seq::new(values@.len(), |i: int| value_or_null(values@[i]))),
{
    let mut items: Vec<Frame> = Vec::new();
    let mut k: usize = 0;
    while k < values.len()
        invariant
            k <= values.len(),
            items@.len() == k,
            forall|i: int| 0 <= i < k ==> (#[trigger] items@[i])@ == value_or_null(values@[i]),
        decreases values.len() - k,
    {
        let f = value_reply(&values[k]);
        items.push(f);
        k += 1;
    }
    let r = Frame::Array(items);
    proof {
        lemma_array_view(items);
        assert(r@->Array_0 =~= Seq::new(values@.len(), |i: int| value_or_null(values@[i])));
    }
    r
}

/// The answer to `SETNX` and to `EXPIRE`: 1 where the write or the change
/// happened, 0 where the key stood in its way or was not there.
pub fn flag_reply(done: bool) -> (r: Frame)
    ensures
        r@ == Value::Integer(
            if done {
                1i64
            } else {
                0i64
            },
        ),
{
    if done {
        Frame::Integer(1)
    } else {
        Frame::Integer(0)
    }
}

/// The answer to `EXISTS` and to `PUBLISH`: a count.
pub fn count_reply(n: u64) -> (r: Frame)
    ensures
        r@ == Value::Integer(capped(n)),
{
    if n <= 0x7fff_ffff_ffff_ffff {
        Frame::Integer(n as i64)
    } else {
        Frame::Integer(i64::MAX)
    }
}

/// The answer to `TTL`: the seconds that are left, -1 for a key that does
/// not expire, -2 for a key that is not there.
pub fn ttl_reply(ttl: Ttl) -> (r: Frame)
    ensures
        r@ == Value::Integer(
            match ttl {
                Ttl::Remaining(s) => capped(s),
                Ttl::NoExpiry => -1i64,
                Ttl::Absent => -2i64,
            },
        ),
{
    match ttl {
        Ttl::Remaining(s) => count_reply(s),
        Ttl::NoExpiry => Frame::Integer(-1),
        Ttl::Absent => Frame::Integer(-2),
    }
}

} // verus!
