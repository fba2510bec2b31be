use bytes::Bytes;
use vstd::prelude::*;

verus! {

/// `bytes::Bytes`, a cheaply cloned view of immutable bytes, carried opaquely.
#[verifier::external_type_specification]
#[verifier::external_body]
pub struct ExBytes(bytes::Bytes);

/// The bytes that a `bytes::Bytes` holds.
pub uninterp spec fn bytes_contents(b: bytes::Bytes) -> Seq<u8>;

/// `<Bytes as AsRef<[u8]>>::as_ref`: a borrow of all the bytes held, in order.
#[verifier::external_body]
pub(crate) fn bytes_as_slice(b: &Bytes) -> (r: &[u8])
    ensures
        r@ == bytes_contents(*b),
{
    b.as_ref()
}

/// `<Bytes as From<Vec<u8>>>::from`: takes the vector over, contents unchanged.
#[verifier::external_body]
pub(crate) fn bytes_from_vec(v: Vec<u8>) -> (r: Bytes)
    ensures
        bytes_contents(r) == v@,
{
    Bytes::from(v)
}

/// `<Bytes as Clone>::clone`: another handle on the same bytes.
pub assume_specification[ <bytes::Bytes as Clone>::clone ](b: &bytes::Bytes) -> (r: bytes::Bytes)
    ensures
        bytes_contents(r) == bytes_contents(*b),
;

/// `Bytes::slice` from `begin` to the end: the bytes at and after `begin`.
/// The call panics on a start beyond the end, which `requires` leaves out.
#[verifier::external_body]
pub(crate) fn bytes_slice_from(b: &Bytes, begin: usize) -> (r: Bytes)
    requires
        begin <= bytes_contents(*b).len(),
    ensures
        bytes_contents(r) == bytes_contents(*b).skip(begin as int),
{
    b.slice(begin..)
}

} // verus!
