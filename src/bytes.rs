//! Fixed-width little-endian encoding of the 64-bit expiry timestamp.
//!
//! Little-endian is a deliberate choice of the token format, not the host's
//! native order: tokens verify on hosts of either byte order.
use vstd::prelude::*;

verus! {

/// Number of bytes in an encoded expiry.
pub const EXPIRY_LEN: usize = 8;

/// The `i`-th byte (least significant first) of the two's-complement form of `x`.
pub open spec fn byte_of(x: i64, i: u64) -> u8 {
    (((x as u64) >> (8 * i)) & 0xff) as u8
}

/// The eight bytes of `x`, least significant first.
pub open spec fn le_bytes(x: i64) -> Seq<u8> {
    seq![
        byte_of(x, 0), byte_of(x, 1), byte_of(x, 2), byte_of(x, 3),
        byte_of(x, 4), byte_of(x, 5), byte_of(x, 6), byte_of(x, 7),
    ]
}

/// The two's-complement integer whose little-endian bytes are `b` (`b` has eight bytes).
pub open spec fn le_value(b: Seq<u8>) -> i64 {
    ((b[0] as u64) | ((b[1] as u64) << 8) | ((b[2] as u64) << 16) | ((b[3] as u64) << 24)
        | ((b[4] as u64) << 32) | ((b[5] as u64) << 40) | ((b[6] as u64) << 48)
        | ((b[7] as u64) << 56)) as i64
}

proof fn lemma_bytes_recombine(u: u64)
    ensures
        u == ((u & 0xff) | (((u >> 8) & 0xff) << 8) | (((u >> 16) & 0xff) << 16) | (((u >> 24)
            & 0xff) << 24) | (((u >> 32) & 0xff) << 32) | (((u >> 40) & 0xff) << 40) | (((u >> 48)
            & 0xff) << 48) | (((u >> 56) & 0xff) << 56)),
{
    assert(u == ((u & 0xff) | (((u >> 8) & 0xff) << 8) | (((u >> 16) & 0xff) << 16) | (((u >> 24)
        & 0xff) << 24) | (((u >> 32) & 0xff) << 32) | (((u >> 40) & 0xff) << 40) | (((u >> 48)
        & 0xff) << 48) | (((u >> 56) & 0xff) << 56))) by (bit_vector);
}

proof fn lemma_byte_cast(u: u64, k: u64)
    requires
        k < 64,
    ensures
        (((u >> k) & 0xff) as u8) as u64 == (u >> k) & 0xff,
{
    assert((u >> k) & 0xff <= 0xff) by (bit_vector);
}

/// Decoding the eight bytes of `x` gives `x` back.
pub proof fn lemma_le_round_trip(x: i64)
    ensures
        le_bytes(x).len() == EXPIRY_LEN,
        le_value(le_bytes(x)) == x,
{
    let u = #[verifier::truncate] (x as u64);
    lemma_byte_cast(u, 0);
    lemma_byte_cast(u, 8);
    lemma_byte_cast(u, 16);
    lemma_byte_cast(u, 24);
    lemma_byte_cast(u, 32);
    lemma_byte_cast(u, 40);
    lemma_byte_cast(u, 48);
    lemma_byte_cast(u, 56);
    lemma_bytes_recombine(u);
    assert(u >> 0u64 == u) by (bit_vector);
    let b = le_bytes(x);
    assert(b[0] as u64 == u & 0xff);
    assert(b[1] as u64 == (u >> 8) & 0xff);
    assert(b[2] as u64 == (u >> 16) & 0xff);
    assert(b[3] as u64 == (u >> 24) & 0xff);
    assert(b[4] as u64 == (u >> 32) & 0xff);
    assert(b[5] as u64 == (u >> 40) & 0xff);
    assert(b[6] as u64 == (u >> 48) & 0xff);
    assert(b[7] as u64 == (u >> 56) & 0xff);
    assert((x as u64) as i64 == x) by (bit_vector);
}

/// Encodes `x` as its eight bytes, least significant first.
pub fn expiry_to_bytes(x: i64) -> (r: Vec<u8>)
    ensures
        r@ == le_bytes(x),
{
    let u: u64 = x as u64;
    let mut r: Vec<u8> = Vec::new();
    let mut i: u64 = 0;
    while i < 8
        invariant
            i <= 8,
            u == x as u64,
            r@.len() == i,
            forall|j: int| 0 <= j < i ==> r@[j] == byte_of(x, j as u64),
        decreases 8 - i,
    {
        r.push(((u >> (8 * i)) & 0xff) as u8);
        i = i + 1;
    }
    assert(r@ =~= le_bytes(x));
    r
}

/// Decodes eight bytes, least significant first, into a timestamp.
pub fn expiry_from_bytes(b: &[u8]) -> (r: i64)
    requires
        b@.len() == EXPIRY_LEN,
    ensures
        r == le_value(b@),
{
    let u: u64 = (b[0] as u64) | ((b[1] as u64) << 8) | ((b[2] as u64) << 16) | ((b[3] as u64)
        << 24) | ((b[4] as u64) << 32) | ((b[5] as u64) << 40) | ((b[6] as u64) << 48) | ((
    b[7] as u64) << 56);
    u as i64
}

} // verus!
