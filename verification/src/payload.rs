//! Payload bytes: the operations of the `bytes` crate that frames are built with.

use bytes::Bytes;
use vstd::prelude::*;

verus! {

/// A cheaply cloneable run of bytes.
#[verifier::external_type_specification]
#[verifier::external_body]
pub struct ExBytes(bytes::Bytes);

/// The bytes that a buffer holds.
pub uninterp spec fn bytes_of(b: Bytes) -> Seq<u8>;

/// Calls `Bytes::len`. Trusted: the number of bytes held.
#[verifier::external_body]
pub(crate) fn length(b: &Bytes) -> (r: usize)
    ensures
        r == bytes_of(*b).len(),
{
    b.len()
}

/// Calls `Bytes::split_to`. Trusted: the first `at` bytes are returned, the rest
/// stays.
#[verifier::external_body]
pub(crate) fn split_to(b: &mut Bytes, at: usize) -> (r: Bytes)
    requires
        at <= bytes_of(*old(b)).len(),
    ensures
        bytes_of(r) == bytes_of(*old(b)).take(at as int),
        bytes_of(*final(b)) == bytes_of(*old(b)).skip(at as int),
{
    b.split_to(at)
}

/// Calls `Bytes::as_ref`. Trusted: the slice holds the same bytes.
#[verifier::external_body]
pub(crate) fn slice(b: &Bytes) -> (r: &[u8])
    ensures
        r@ == bytes_of(*b),
{
    b.as_ref()
}

/// Calls `Bytes::clone`. Trusted: the copy holds the same bytes.
#[verifier::external_body]
pub(crate) fn copy(b: &Bytes) -> (r: Bytes)
    ensures
        bytes_of(r) == bytes_of(*b),
{
    b.clone()
}

} // verus!
