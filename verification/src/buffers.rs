use vstd::prelude::*;
use bytes::{Bytes, BytesMut, BufMut};

verus! {

#[verifier::external_type_specification]
#[verifier::external_body]
pub struct ExBytesMut(BytesMut);

#[verifier::external_type_specification]
#[verifier::external_body]
pub struct ExBytes(Bytes);

/// The bytes held by a growable buffer of the `bytes` crate.
pub uninterp spec fn bytes_mut_contents(b: BytesMut) -> Seq<u8>;

/// The bytes held by a frozen buffer of the `bytes` crate.
pub uninterp spec fn bytes_contents(b: Bytes) -> Seq<u8>;

/// The eight bytes of `n` in big-endian order, most significant first.
pub open spec fn u64_be_bytes(n: u64) -> Seq<u8> {
    seq![
        (n / 0x100_0000_0000_0000) as u8,
        ((n / 0x1_0000_0000_0000) % 0x100) as u8,
        ((n / 0x100_0000_0000) % 0x100) as u8,
        ((n / 0x1_0000_0000) % 0x100) as u8,
        ((n / 0x100_0000) % 0x100) as u8,
        ((n / 0x1_0000) % 0x100) as u8,
        ((n / 0x100) % 0x100) as u8,
        (n % 0x100) as u8,
    ]
}

/// The number that eight bytes stand for in big-endian order, as a reader of
/// the wire (such as `read_u64`) takes them.
pub open spec fn u64_from_be_bytes(b: Seq<u8>) -> nat {
    ((((((b[0] as nat * 0x100 + b[1] as nat) * 0x100 + b[2] as nat) * 0x100 + b[3] as nat) * 0x100
        + b[4] as nat) * 0x100 + b[5] as nat) * 0x100 + b[6] as nat) * 0x100 + b[7] as nat
}

/// Reading back the eight big-endian bytes of a number gives the number.
pub proof fn lemma_u64_be_bytes_roundtrip(n: u64)
    ensures
        u64_be_bytes(n).len() == 8,
        u64_from_be_bytes(u64_be_bytes(n)) == n,
{
    let b = u64_be_bytes(n);
    let c0: u64 = n / 0x100_0000_0000_0000;
    let c1: u64 = (n / 0x1_0000_0000_0000) % 0x100;
    let c2: u64 = (n / 0x100_0000_0000) % 0x100;
    let c3: u64 = (n / 0x1_0000_0000) % 0x100;
    let c4: u64 = (n / 0x100_0000) % 0x100;
    let c5: u64 = (n / 0x1_0000) % 0x100;
    let c6: u64 = (n / 0x100) % 0x100;
    let c7: u64 = n % 0x100;
    assert(((((((c0 * 0x100 + c1) * 0x100 + c2) * 0x100 + c3) * 0x100 + c4) * 0x100 + c5) * 0x100 + c6)
        * 0x100 + c7 == n) by (bit_vector)
        requires
            c0 == n / 0x100_0000_0000_0000,
            c1 == (n / 0x1_0000_0000_0000) % 0x100,
            c2 == (n / 0x100_0000_0000) % 0x100,
            c3 == (n / 0x1_0000_0000) % 0x100,
            c4 == (n / 0x100_0000) % 0x100,
            c5 == (n / 0x1_0000) % 0x100,
            c6 == (n / 0x100) % 0x100,
            c7 == n % 0x100,
    ;
    assert(c0 < 0x100) by (bit_vector)
        requires c0 == n / 0x100_0000_0000_0000;
    assert(b[0] as nat == c0 && b[1] as nat == c1 && b[2] as nat == c2 && b[3] as nat == c3);
    assert(b[4] as nat == c4 && b[5] as nat == c5 && b[6] as nat == c6 && b[7] as nat == c7);
}

/// `BytesMut::with_capacity`: a new, empty buffer (the capacity is only reserved
/// room; `Vec::with_capacity` underneath panics above `isize::MAX` bytes).
#[verifier::external_body]
pub(crate) fn new_buffer(capacity: usize) -> (b: BytesMut)
    requires
        capacity <= isize::MAX,
    ensures
        bytes_mut_contents(b) == Seq::<u8>::empty(),
{
    BytesMut::with_capacity(capacity)
}

/// `BufMut::put_u64` on a `BytesMut`: appends the big-endian bytes of `n`
/// (`n.to_be_bytes()` through `put_slice`, which extends the buffer).
#[verifier::external_body]
pub(crate) fn put_u64(b: &mut BytesMut, n: u64)
    requires
        bytes_mut_contents(*old(b)).len() + 8 <= isize::MAX,
    ensures
        bytes_mut_contents(*final(b)) == bytes_mut_contents(*old(b)) + u64_be_bytes(n),
{
    b.put_u64(n)
}

/// `BufMut::put_slice` on a `BytesMut`: appends the bytes of `src`.
#[verifier::external_body]
pub(crate) fn put_slice(b: &mut BytesMut, src: &[u8])
    requires
        bytes_mut_contents(*old(b)).len() + src@.len() <= isize::MAX,
    ensures
        bytes_mut_contents(*final(b)) == bytes_mut_contents(*old(b)) + src@,
{
    b.put_slice(src)
}

/// `BytesMut::freeze`: the same bytes as an immutable `Bytes`.
#[verifier::external_body]
pub(crate) fn freeze(b: BytesMut) -> (r: Bytes)
    ensures
        bytes_contents(r) == bytes_mut_contents(b),
{
    b.freeze()
}

} // verus!
