//! The few calls this library makes into `bytes` and into parts of std that
//! have no specification of their own. Each contract here is taken on trust.

use vstd::prelude::*;
use vstd::utf8::*;
use bytes::Bytes;
use std::time::Duration;

verus! {

/// `bytes::Bytes`, carried around as a value that nothing here looks into.
#[verifier::external_type_specification]
#[verifier::external_body]
pub struct ExBytes(bytes::Bytes);

/// The bytes that a `Bytes` value holds, in order.
pub uninterp spec fn bytes_content(b: Bytes) -> Seq<u8>;

/// What Unicode lowercasing (`str::to_lowercase`) makes of a text.
pub uninterp spec fn lowercase_of(s: Seq<char>) -> Seq<char>;

/// What Unicode uppercasing (`str::to_uppercase`) makes of a text.
pub uninterp spec fn uppercase_of(s: Seq<char>) -> Seq<char>;

/// The length of a `Duration` in nanoseconds.
pub uninterp spec fn duration_nanos(d: Duration) -> nat;

/// `Bytes::copy_from_slice`: the new value holds a copy of `data`.
#[verifier::external_body]
pub(crate) fn bytes_from_slice(data: &[u8]) -> (r: Bytes)
    ensures
        bytes_content(r) == data@,
{
    Bytes::copy_from_slice(data)
}

/// `Bytes::to_vec` (through its deref to a slice): a vector with the same
/// bytes.
#[verifier::external_body]
pub(crate) fn bytes_to_vec(b: &Bytes) -> (r: Vec<u8>)
    ensures
        r@ == bytes_content(*b),
{
    b.to_vec()
}

/// `Bytes::len`: the number of bytes held.
#[verifier::external_body]
pub(crate) fn bytes_len(b: &Bytes) -> (r: usize)
    ensures
        r == bytes_content(*b).len(),
{
    b.len()
}

/// `Bytes::clone`: a second handle on the same bytes.
#[verifier::external_body]
pub(crate) fn bytes_clone(b: &Bytes) -> (r: Bytes)
    ensures
        bytes_content(r) == bytes_content(*b),
{
    b.clone()
}

/// `core::str::from_utf8`: the text that `data` encodes, exactly when `data`
/// is well-formed UTF-8.
#[verifier::external_body]
pub(crate) fn text_of(data: &[u8]) -> (r: Option<&str>)
    ensures
        r is Some <==> valid_utf8(data@),
        r is Some ==> r->0@ == decode_utf8(data@),
{
    core::str::from_utf8(data).ok()
}

/// `str::to_lowercase`.
#[verifier::external_body]
pub(crate) fn lowercase(s: &str) -> (r: String)
    ensures
        r@ == lowercase_of(s@),
{
    s.to_lowercase()
}

/// `str::to_uppercase`.
#[verifier::external_body]
pub(crate) fn uppercase(s: &str) -> (r: String)
    ensures
        r@ == uppercase_of(s@),
{
    s.to_uppercase()
}

/// `Duration::from_secs`: that many whole seconds.
#[verifier::external_body]
pub(crate) fn duration_from_secs(secs: u64) -> (r: Duration)
    ensures
        duration_nanos(r) == secs * 1_000_000_000,
{
    Duration::from_secs(secs)
}

/// `Duration::from_millis`: that many whole milliseconds.
#[verifier::external_body]
pub(crate) fn duration_from_millis(millis: u64) -> (r: Duration)
    ensures
        duration_nanos(r) == millis * 1_000_000,
{
    Duration::from_millis(millis)
}

} // verus!
