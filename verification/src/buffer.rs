//! The byte buffers of the `bytes` crate, and how bytes that came in are put into one.

use bytes::{Bytes, BytesMut};
use vstd::prelude::*;

use crate::error::Error;

verus! {

/// `bytes::BytesMut`, a growable buffer of bytes.
#[verifier::external_type_specification]
#[verifier::external_body]
pub struct ExBytesMut(BytesMut);

/// `bytes::Bytes`, bytes that no longer change and are cheap to clone.
#[verifier::external_type_specification]
#[verifier::external_body]
pub struct ExBytes(Bytes);

/// The bytes in a buffer, in order.
pub uninterp spec fn buffered(buf: BytesMut) -> Seq<u8>;

/// The bytes that a `Bytes` holds, in order.
pub uninterp spec fn held(bytes: Bytes) -> Seq<u8>;

/// No allocation is larger than this many bytes.
pub open spec fn fits(len: nat) -> bool {
    len <= isize::MAX
}

/// `BytesMut::new` gives an empty buffer.
pub assume_specification[ BytesMut::new ]() -> (buf: BytesMut)
    ensures
        buffered(buf) == Seq::<u8>::empty(),
;

/// `BytesMut::with_capacity` gives an empty buffer, whatever room it has.
pub assume_specification[ BytesMut::with_capacity ](capacity: usize) -> (buf: BytesMut)
    requires
        fits(capacity as nat),
    ensures
        buffered(buf) == Seq::<u8>::empty(),
;

/// `BytesMut::len` counts the bytes in the buffer.
pub assume_specification[ BytesMut::len ](buf: &BytesMut) -> (len: usize)
    ensures
        len == buffered(*buf).len(),
;

/// `BytesMut::clear` removes all the bytes.
pub assume_specification[ BytesMut::clear ](buf: &mut BytesMut)
    ensures
        buffered(*final(buf)) == Seq::<u8>::empty(),
;

/// `BytesMut::truncate` keeps the first `len` bytes, or all of them where there are fewer.
pub assume_specification[ BytesMut::truncate ](buf: &mut BytesMut, len: usize)
    ensures
        buffered(*final(buf)) == (if len <= buffered(*old(buf)).len() {
            buffered(*old(buf)).take(len as int)
        } else {
            buffered(*old(buf))
        }),
;

/// `BytesMut::extend_from_slice` appends the bytes of the slice.
pub assume_specification[ BytesMut::extend_from_slice ](buf: &mut BytesMut, extend: &[u8])
    requires
        fits(buffered(*old(buf)).len() + extend@.len()),
    ensures
        buffered(*final(buf)) == buffered(*old(buf)) + extend@,
;

/// `BytesMut::split_to` takes the first `at` bytes out of the buffer. It panics where there are
/// fewer.
pub assume_specification[ BytesMut::split_to ](buf: &mut BytesMut, at: usize) -> (head: BytesMut)
    requires
        at <= buffered(*old(buf)).len(),
    ensures
        buffered(head) == buffered(*old(buf)).take(at as int),
        buffered(*final(buf)) == buffered(*old(buf)).skip(at as int),
;

/// `BytesMut::freeze` keeps the bytes.
pub assume_specification[ BytesMut::freeze ](buf: BytesMut) -> (bytes: Bytes)
    ensures
        held(bytes) == buffered(buf),
;

/// `BytesMut::deref` gives the bytes of the buffer as a slice.
#[verifier::external_body]
pub(crate) fn buffer_slice(buf: &BytesMut) -> (slice: &[u8])
    ensures
        slice@ == buffered(*buf),
{
    &buf[..]
}

/// `Bytes::clone` holds the same bytes.
pub assume_specification[ <Bytes as Clone>::clone ](bytes: &Bytes) -> (other: Bytes)
    ensures
        held(other) == held(*bytes),
;

/// Puts what one read of a stream gave behind the bytes that are already in the buffer, and
/// returns how many bytes came in. A read that gave nothing, because the stream is at its end, is
/// a broken connection; like a read that failed, it leaves the buffer as it is.
pub fn recv_stream_read(
    buf: &mut BytesMut,
    read: Result<Option<&[u8]>, quinn::ReadError>,
) -> (r: Result<usize, Error>)
    requires
        read matches Ok(Some(chunk)) ==> fits(buffered(*old(buf)).len() + chunk@.len()),
    ensures
        match read {
            Ok(Some(chunk)) => {
                &&& r matches Ok(len) && len == chunk@.len()
                &&& buffered(*final(buf)) == buffered(*old(buf)) + chunk@
            },
            Ok(None) => {
                &&& r matches Err(Error::ConnectionBroken)
                &&& buffered(*final(buf)) == buffered(*old(buf))
            },
            Err(e) => {
                &&& r == Err::<usize, Error>(Error::Read(e))
                &&& buffered(*final(buf)) == buffered(*old(buf))
            },
        },
{
    match read {
        Ok(Some(chunk)) => {
            buf.extend_from_slice(chunk);
            Ok(chunk.len())
        },
        Ok(None) => Err(Error::ConnectionBroken),
        Err(e) => Err(Error::Read(e)),
    }
}

} // verus!
