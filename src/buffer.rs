use vstd::prelude::*;
use vstd::string::StringSliceAdditionalSpecFns;
use vstd::utf8::{decode_utf8, valid_utf8};

use crate::text::decimal_usize;

verus! {

#[verifier::external_type_specification]
#[verifier::external_body]
pub struct ExBytesMut(bytes::BytesMut);

/// The bytes that a `BytesMut` holds.
pub uninterp spec fn bytes_of(b: bytes::BytesMut) -> Seq<u8>;

/// `s[i..i + 2]` is a CRLF.
pub open spec fn crlf_at(s: Seq<u8>, i: int) -> bool {
    0 <= i && i + 1 < s.len() && s[i] == 13 && s[i + 1] == 10
}

/// The first index at or after `i` where a CRLF starts, or the length when none does.
pub open spec fn crlf_from(s: Seq<u8>, i: int) -> int
    decreases s.len() - i,
{
    if 0 <= i < s.len() && !crlf_at(s, i) {
        crlf_from(s, i + 1)
    } else if i < 0 {
        0
    } else {
        i
    }
}

/// Relies on `bytes::BytesMut::with_capacity`: the new buffer holds no bytes.
#[verifier::external_body]
pub(crate) fn buffer_with_capacity(capacity: usize) -> (r: bytes::BytesMut)
    ensures
        bytes_of(r) == Seq::<u8>::empty(),
{
    bytes::BytesMut::with_capacity(capacity)
}

/// Relies on `bytes::BytesMut::len`: the number of bytes held.
#[verifier::external_body]
pub(crate) fn buffer_len(b: &bytes::BytesMut) -> (r: usize)
    ensures
        r == bytes_of(*b).len(),
{
    b.len()
}

/// Relies on `bytes::BytesMut::extend_from_slice`: the bytes go to the tail.
#[verifier::external_body]
pub(crate) fn buffer_append(b: &mut bytes::BytesMut, s: &[u8])
    requires
        bytes_of(*old(b)).len() + s@.len() <= isize::MAX,
    ensures
        bytes_of(*final(b)) == bytes_of(*old(b)) + s@,
{
    b.extend_from_slice(s)
}

/// Relies on `bytes::BytesMut::split_to`: the first `n` bytes leave the buffer
/// and are returned, the rest stays; it panics when `n` exceeds the length.
#[verifier::external_body]
pub(crate) fn buffer_take_front(b: &mut bytes::BytesMut, n: usize) -> (r: Vec<u8>)
    requires
        n <= bytes_of(*old(b)).len(),
    ensures
        r@ == bytes_of(*old(b)).take(n as int),
        bytes_of(*final(b)) == bytes_of(*old(b)).skip(n as int),
{
    b.split_to(n).to_vec()
}

/// Relies on `<bytes::BytesMut as bytes::Buf>::advance`: the first `n` bytes
/// are dropped and the rest stays; it panics when `n` exceeds the length.
#[verifier::external_body]
pub(crate) fn buffer_skip(b: &mut bytes::BytesMut, n: usize)
    requires
        n <= bytes_of(*old(b)).len(),
    ensures
        bytes_of(*final(b)) == bytes_of(*old(b)).skip(n as int),
{
    bytes::Buf::advance(b, n)
}

/// Relies on `bytes::BytesMut` dereferencing to the slice of the bytes it holds.
#[verifier::external_body]
pub(crate) fn buffer_contents(b: &bytes::BytesMut) -> (r: Vec<u8>)
    ensures
        r@ == bytes_of(*b),
{
    b.to_vec()
}

/// Relies on `memchr::memmem::find`: the index of the first occurrence of
/// `"\r\n"` in `h`, or `None`.
#[verifier::external_body]
pub(crate) fn find_crlf(h: &[u8]) -> (r: Option<usize>)
    ensures
        match r {
            Some(i) => i < h@.len() && i == crlf_from(h@, 0),
            None => crlf_from(h@, 0) == h@.len(),
        },
{
    memchr::memmem::find(h, b"\r\n")
}

/// Relies on `String::from_utf8`: it succeeds exactly on valid UTF-8 and then
/// holds the text those bytes encode.
#[verifier::external_body]
pub(crate) fn decode_text(b: Vec<u8>) -> (r: Option<String>)
    ensures
        match r {
            Some(s) => valid_utf8(b@) && s@ == decode_utf8(b@),
            None => !valid_utf8(b@),
        },
{
    String::from_utf8(b).ok()
}

/// Relies on `<usize as core::str::FromStr>::from_str`: it accepts an optional
/// `+` followed by decimal digits whose value fits a `usize`, and nothing else.
#[verifier::external_body]
pub(crate) fn parse_usize(s: &str) -> (r: Option<usize>)
    ensures
        r == decimal_usize(s.spec_bytes()),
{
    s.parse::<usize>().ok()
}

} // verus!
