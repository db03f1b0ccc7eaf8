//! Byte buffers of the `bytes` crate, as seen by the verifier.
//!
//! `BytesMut` is the growable output buffer and `Bytes` the shared input
//! buffer. Their contents are named by `mut_contents` and `contents`; every
//! operation the library uses is a wrapper below whose contract states what it
//! does to those contents.
use bytes::{Bytes, BytesMut};
use vstd::prelude::*;

verus! {

#[verifier::external_type_specification]
#[verifier::external_body]
pub struct ExBytes(Bytes);

#[verifier::external_type_specification]
#[verifier::external_body]
pub struct ExBytesMut(BytesMut);

/// The bytes held by a `BytesMut`, first to last.
pub uninterp spec fn mut_contents(b: BytesMut) -> Seq<u8>;

/// The bytes held by a `Bytes`, first to last.
pub uninterp spec fn contents(b: Bytes) -> Seq<u8>;

/// Relies on `BytesMut::new`: a new buffer is empty.
#[verifier::external_body]
pub(crate) fn new_mut() -> (r: BytesMut)
    ensures
        mut_contents(r) == Seq::<u8>::empty(),
{
    BytesMut::new()
}

/// Relies on `BytesMut::len`: the number of bytes held.
#[verifier::external_body]
pub(crate) fn mut_len(b: &BytesMut) -> (r: usize)
    ensures
        r == mut_contents(*b).len(),
{
    b.len()
}

/// Relies on `BytesMut::extend_from_slice`: appends the slice; it reserves
/// room first, which panics when the new length overflows `usize`.
#[verifier::external_body]
pub(crate) fn mut_append(b: &mut BytesMut, s: &[u8])
    requires
        mut_contents(*old(b)).len() + s@.len() <= usize::MAX,
    ensures
        mut_contents(*final(b)) == mut_contents(*old(b)) + s@,
{
    b.extend_from_slice(s)
}

/// Relies on `BytesMut`'s `AsRef<[u8]>`: a view of the bytes held.
#[verifier::external_body]
pub(crate) fn mut_as_slice(b: &BytesMut) -> (r: &[u8])
    ensures
        r@ == mut_contents(*b),
{
    b.as_ref()
}

/// Relies on `BytesMut::split_to`: the first `at` bytes leave the buffer and
/// are returned; it panics when `at` exceeds the length.
#[verifier::external_body]
pub(crate) fn mut_split_to(b: &mut BytesMut, at: usize) -> (r: BytesMut)
    requires
        at <= mut_contents(*old(b)).len(),
    ensures
        mut_contents(r) == mut_contents(*old(b)).take(at as int),
        mut_contents(*final(b)) == mut_contents(*old(b)).skip(at as int),
{
    b.split_to(at)
}

/// Relies on `BytesMut::freeze`: the same bytes, made immutable.
#[verifier::external_body]
pub(crate) fn freeze(b: BytesMut) -> (r: Bytes)
    ensures
        contents(r) == mut_contents(b),
{
    b.freeze()
}

/// Relies on `Bytes::copy_from_slice`: a buffer holding a copy of the slice.
#[verifier::external_body]
pub(crate) fn from_slice(s: &[u8]) -> (r: Bytes)
    ensures
        contents(r) == s@,
{
    Bytes::copy_from_slice(s)
}

/// Relies on `Bytes::len`: the number of bytes held.
#[verifier::external_body]
pub(crate) fn len(b: &Bytes) -> (r: usize)
    ensures
        r == contents(*b).len(),
{
    b.len()
}

/// Relies on `Bytes`'s `AsRef<[u8]>`: a view of the bytes held.
#[verifier::external_body]
pub(crate) fn as_slice(b: &Bytes) -> (r: &[u8])
    ensures
        r@ == contents(*b),
{
    b.as_ref()
}

/// Relies on `Bytes::split_to`: the first `at` bytes leave the buffer and are
/// returned; it panics when `at` exceeds the length.
#[verifier::external_body]
pub(crate) fn split_to(b: &mut Bytes, at: usize) -> (r: Bytes)
    requires
        at <= contents(*old(b)).len(),
    ensures
        contents(r) == contents(*old(b)).take(at as int),
        contents(*final(b)) == contents(*old(b)).skip(at as int),
{
    b.split_to(at)
}

} // verus!
