//! Byte buffers of the `bytes` crate.
//!
//! Frames are assembled in a `BytesMut` and handed out as `Bytes`. To the
//! verifier both are opaque: [`buffer`] and [`frame`] name the bytes they hold,
//! and the methods used in this crate are described over these two names.

use vstd::prelude::*;
use bytes::Buf;
use bytes::Bytes;
use bytes::BytesMut;

verus! {

#[verifier::external_type_specification]
#[verifier::external_body]
pub struct ExBytesMut(bytes::BytesMut);

#[verifier::external_type_specification]
#[verifier::external_body]
pub struct ExBytes(bytes::Bytes);

/// The bytes that a `BytesMut` holds, from its start to its length.
pub uninterp spec fn buffer(b: BytesMut) -> Seq<u8>;

/// The bytes that a `Bytes` holds.
pub uninterp spec fn frame(b: Bytes) -> Seq<u8>;

/// `len` bytes, all zero.
pub open spec fn zeros(len: nat) -> Seq<u8> {
    Seq::new(len, |i: int| 0u8)
}

/// `bytes` cut down to `len` bytes, or filled up with `value` to that length.
pub open spec fn resized(bytes: Seq<u8>, len: nat, value: u8) -> Seq<u8> {
    Seq::new(
        len,
        |i: int|
            if i < bytes.len() {
                bytes[i]
            } else {
                value
            },
    )
}

/// A run of zeros has its length and nothing but zeros; resizing keeps the bytes
/// that there is room for, and fills up with the value.
pub proof fn lemma_zeros_and_resized(bytes: Seq<u8>, len: nat, value: u8)
    ensures
        zeros(len).len() == len,
        forall|i: int| 0 <= i < len ==> #[trigger] zeros(len)[i] == 0,
        resized(bytes, len, value).len() == len,
        len <= bytes.len() ==> resized(bytes, len, value) == bytes.take(len as int),
        len >= bytes.len() ==> resized(bytes, len, value).take(bytes.len() as int) == bytes,
        forall|i: int| bytes.len() <= i < len ==> #[trigger] resized(bytes, len, value)[i] == value,
{
    if len <= bytes.len() {
        assert(resized(bytes, len, value) =~= bytes.take(len as int));
    } else {
        assert(resized(bytes, len, value).take(bytes.len() as int) =~= bytes);
    }
}

/// `BytesMut::len` is the number of bytes held.
pub assume_specification[ BytesMut::len ](b: &BytesMut) -> (len: usize)
    ensures
        len == buffer(*b).len(),
;

/// `BytesMut::resize` truncates, or appends copies of `value`, so that the
/// length becomes `new_len`. No allocation can hold more than `isize::MAX`
/// bytes.
pub assume_specification[ BytesMut::resize ](b: &mut BytesMut, new_len: usize, value: u8)
    requires
        new_len <= isize::MAX,
    ensures
        buffer(*final(b)) == resized(buffer(*old(b)), new_len as nat, value),
;

/// `BytesMut::extend_from_slice` appends the bytes of `extend`. No allocation
/// can hold more than `isize::MAX` bytes.
pub assume_specification[ BytesMut::extend_from_slice ](b: &mut BytesMut, extend: &[u8])
    requires
        buffer(*old(b)).len() + extend@.len() <= isize::MAX,
    ensures
        buffer(*final(b)) == buffer(*old(b)) + extend@,
;

/// `BytesMut::split_to` hands out the first `at` bytes and keeps the rest. It
/// panics where there are fewer.
pub assume_specification[ BytesMut::split_to ](b: &mut BytesMut, at: usize) -> (head: BytesMut)
    requires
        at <= buffer(*old(b)).len(),
    ensures
        buffer(head) == buffer(*old(b)).take(at as int),
        buffer(*final(b)) == buffer(*old(b)).skip(at as int),
;

/// `BytesMut::freeze` keeps the bytes.
pub assume_specification[ BytesMut::freeze ](b: BytesMut) -> (r: Bytes)
    ensures
        frame(r) == buffer(b),
;

/// `BytesMut::zeroed` makes a buffer of `len` zero bytes. No allocation can
/// hold more than `isize::MAX` bytes.
pub assume_specification[ BytesMut::zeroed ](len: usize) -> (b: BytesMut)
    requires
        len <= isize::MAX,
    ensures
        buffer(b) == zeros(len as nat),
;

/// `BytesMut::new` makes an empty buffer.
pub assume_specification[ BytesMut::new ]() -> (b: BytesMut)
    ensures
        buffer(b) == Seq::<u8>::empty(),
;

/// `Bytes::new` makes an empty one.
pub assume_specification[ Bytes::new ]() -> (b: Bytes)
    ensures
        frame(b) == Seq::<u8>::empty(),
;

/// `Bytes::len` is the number of bytes held.
pub assume_specification[ Bytes::len ](b: &Bytes) -> (len: usize)
    ensures
        len == frame(*b).len(),
;

/// `Buf::advance` on a `BytesMut` drops the first `cnt` bytes. It panics where
/// there are fewer.
#[verifier::external_body]
pub(crate) fn advance(b: &mut BytesMut, cnt: usize)
    requires
        cnt <= buffer(*old(b)).len(),
    ensures
        buffer(*final(b)) == buffer(*old(b)).skip(cnt as int),
{
    b.advance(cnt)
}

/// `BytesMut` as a slice (its `Deref`): the bytes held.
#[verifier::external_body]
pub(crate) fn buffer_slice(b: &BytesMut) -> (r: &[u8])
    ensures
        r@ == buffer(*b),
{
    &b[..]
}

/// `Bytes` as a slice (its `Deref`): the bytes held.
#[verifier::external_body]
pub(crate) fn frame_slice(b: &Bytes) -> (r: &[u8])
    ensures
        r@ == frame(*b),
{
    &b[..]
}

} // verus!
