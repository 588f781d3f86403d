//! Byte buffers of the `bytes` crate, as the transport hands them over.
use vstd::prelude::*;

verus! {

#[verifier::external_type_specification]
#[verifier::external_body]
pub struct ExBytesMut(bytes::BytesMut);

/// The bytes that a buffer holds, first to last.
pub uninterp spec fn buffer_bytes(b: bytes::BytesMut) -> Seq<u8>;

/// Relies on `From<&[u8]> for bytes::BytesMut`: the new buffer holds a copy of the slice.
#[verifier::external_body]
pub(crate) fn buffer_from(s: &[u8]) -> (r: bytes::BytesMut)
    ensures
        buffer_bytes(r) == s@,
{
    bytes::BytesMut::from(s)
}

/// Relies on `AsRef<[u8]> for bytes::BytesMut`: the slice is the buffer's contents.
#[verifier::external_body]
pub(crate) fn buffer_slice(b: &bytes::BytesMut) -> (r: &[u8])
    ensures
        r@ == buffer_bytes(*b),
{
    b.as_ref()
}

/// Appends `a` to `out`.
pub(crate) fn append_bytes(out: &mut Vec<u8>, a: &[u8])
    ensures
        final(out)@ == old(out)@ + a@,
{
    let ghost start = out@;
    let mut i: usize = 0;
    while i < a.len()
        invariant
            0 <= i <= a@.len(),
            out@ == start + a@.subrange(0, i as int),
        decreases a@.len() - i,
    {
        out.push(a[i]);
        assert(a@.subrange(0, i + 1) =~= a@.subrange(0, i as int).push(a@[i as int]));
        i += 1;
    }
    assert(a@.subrange(0, a@.len() as int) =~= a@);
}

} // verus!
