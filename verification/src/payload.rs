//! Byte payloads carried by frames, held in `bytes::Bytes`.
use vstd::prelude::*;
use bytes::Bytes;

verus! {

/// `bytes::Bytes` is an outside type; Verus sees nothing inside a value of it.
#[verifier::external_type_specification]
#[verifier::external_body]
pub struct ExBytes(Bytes);

/// The bytes that a `Bytes` value holds, in order.
pub uninterp spec fn bytes_contents(b: Bytes) -> Seq<u8>;

/// `<Bytes as Clone>::clone` makes a new handle to the same bytes.
pub assume_specification[ <Bytes as Clone>::clone ](b: &Bytes) -> (res: Bytes)
    ensures
        bytes_contents(res) == bytes_contents(*b),
;

/// Calls `Bytes::new`, which returns an empty buffer.
#[verifier::external_body]
pub(crate) fn bytes_new() -> (res: Bytes)
    ensures
        bytes_contents(res) == Seq::<u8>::empty(),
{
    Bytes::new()
}

/// Calls `Bytes::len`: the number of bytes held.
#[verifier::external_body]
pub(crate) fn bytes_len(b: &Bytes) -> (res: usize)
    ensures
        res == bytes_contents(*b).len(),
{
    b.len()
}

/// Calls `Bytes::is_empty`: whether no byte is held.
#[verifier::external_body]
pub(crate) fn bytes_is_empty(b: &Bytes) -> (res: bool)
    ensures
        res == (bytes_contents(*b).len() == 0),
{
    b.is_empty()
}

/// Calls `Bytes::copy_from_slice`, which copies the slice into a new buffer.
#[verifier::external_body]
pub(crate) fn bytes_copy_from_slice(data: &[u8]) -> (res: Bytes)
    ensures
        bytes_contents(res) == data@,
{
    Bytes::copy_from_slice(data)
}

/// Calls `<Bytes as AsRef<[u8]>>::as_ref`, which borrows the held bytes as a slice.
#[verifier::external_body]
pub(crate) fn bytes_as_slice(b: &Bytes) -> (res: &[u8])
    ensures
        res@ == bytes_contents(*b),
{
    b.as_ref()
}

} // verus!
