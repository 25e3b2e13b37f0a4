//! Little-endian encoding of the integer fields of the on-disk records.
use vstd::prelude::*;

verus! {

/// `n` zero bytes.
pub open spec fn zeros(n: nat) -> Seq<u8> {
    Seq::new(n, |i: int| 0u8)
}

/// The `u16` stored little-endian at `s[at..at + 2]`.
pub open spec fn le_u16(s: Seq<u8>, at: int) -> u16 {
    (s[at] as u16) | ((s[at + 1] as u16) << 8u16)
}

/// The `u32` stored little-endian at `s[at..at + 4]`.
pub open spec fn le_u32(s: Seq<u8>, at: int) -> u32 {
    (s[at] as u32) | ((s[at + 1] as u32) << 8u32) | ((s[at + 2] as u32) << 16u32) | ((s[at + 3]
        as u32) << 24u32)
}

/// The little-endian bytes of `v`.
pub open spec fn u16_bytes(v: u16) -> Seq<u8> {
    seq![(v & 0xff) as u8, (v >> 8u16) as u8]
}

/// The little-endian bytes of `v`.
pub open spec fn u32_bytes(v: u32) -> Seq<u8> {
    seq![(v & 0xff) as u8, ((v >> 8u32) & 0xff) as u8, ((v >> 16u32) & 0xff) as u8, (v >> 24u32) as u8]
}

proof fn lemma_u16_bits(v: u16)
    by (bit_vector)
    ensures
        (((v & 0xff) as u8) as u16) | ((((v >> 8u16) as u8) as u16) << 8u16) == v,
{
}

proof fn lemma_u16_bytes_bits(b0: u8, b1: u8)
    by (bit_vector)
    ensures
        ((((b0 as u16) | ((b1 as u16) << 8u16)) & 0xff) as u8) == b0,
        ((((b0 as u16) | ((b1 as u16) << 8u16)) >> 8u16) as u8) == b1,
{
}

proof fn lemma_u32_bits(v: u32)
    by (bit_vector)
    ensures
        (((v & 0xff) as u8) as u32) | (((((v >> 8u32) & 0xff) as u8) as u32) << 8u32) | (((((v
            >> 16u32) & 0xff) as u8) as u32) << 16u32) | ((((v >> 24u32) as u8) as u32) << 24u32)
            == v,
{
}

proof fn lemma_u32_bytes_bits(b0: u8, b1: u8, b2: u8, b3: u8)
    by (bit_vector)
    ensures
        ({
            let v = (b0 as u32) | ((b1 as u32) << 8u32) | ((b2 as u32) << 16u32) | ((b3 as u32)
                << 24u32);
            &&& ((v & 0xff) as u8) == b0
            &&& (((v >> 8u32) & 0xff) as u8) == b1
            &&& (((v >> 16u32) & 0xff) as u8) == b2
            &&& ((v >> 24u32) as u8) == b3
        }),
{
}

/// Reading back the bytes of a `u16` gives the `u16`.
pub proof fn lemma_u16_roundtrip(v: u16, s: Seq<u8>, at: int)
    requires
        0 <= at,
        at + 2 <= s.len(),
        s.subrange(at, at + 2) == u16_bytes(v),
    ensures
        le_u16(s, at) == v,
{
    assert(s[at] == s.subrange(at, at + 2)[0]);
    assert(s[at + 1] == s.subrange(at, at + 2)[1]);
    lemma_u16_bits(v);
}

/// Writing back a `u16` read from bytes gives those bytes.
pub proof fn lemma_u16_bytes_of_read(s: Seq<u8>, at: int)
    requires
        0 <= at,
        at + 2 <= s.len(),
    ensures
        u16_bytes(le_u16(s, at)) == s.subrange(at, at + 2),
{
    lemma_u16_bytes_bits(s[at], s[at + 1]);
    assert(u16_bytes(le_u16(s, at)) =~= s.subrange(at, at + 2));
}

/// Reading back the bytes of a `u32` gives the `u32`.
pub proof fn lemma_u32_roundtrip(v: u32, s: Seq<u8>, at: int)
    requires
        0 <= at,
        at + 4 <= s.len(),
        s.subrange(at, at + 4) == u32_bytes(v),
    ensures
        le_u32(s, at) == v,
{
    assert(s[at] == s.subrange(at, at + 4)[0]);
    assert(s[at + 1] == s.subrange(at, at + 4)[1]);
    assert(s[at + 2] == s.subrange(at, at + 4)[2]);
    assert(s[at + 3] == s.subrange(at, at + 4)[3]);
    lemma_u32_bits(v);
}

/// Writing back a `u32` read from bytes gives those bytes.
pub proof fn lemma_u32_bytes_of_read(s: Seq<u8>, at: int)
    requires
        0 <= at,
        at + 4 <= s.len(),
    ensures
        u32_bytes(le_u32(s, at)) == s.subrange(at, at + 4),
{
    lemma_u32_bytes_bits(s[at], s[at + 1], s[at + 2], s[at + 3]);
    assert(u32_bytes(le_u32(s, at)) =~= s.subrange(at, at + 4));
}

/// Reads the little-endian `u16` at `s[at..at + 2]`.
pub fn read_u16(s: &[u8], at: usize) -> (v: u16)
    requires
        at + 2 <= s@.len(),
    ensures
        v == le_u16(s@, at as int),
{
    (s[at] as u16) | ((s[at + 1] as u16) << 8u16)
}

/// Reads the little-endian `u32` at `s[at..at + 4]`.
pub fn read_u32(s: &[u8], at: usize) -> (v: u32)
    requires
        at + 4 <= s@.len(),
    ensures
        v == le_u32(s@, at as int),
{
    (s[at] as u32) | ((s[at + 1] as u32) << 8u32) | ((s[at + 2] as u32) << 16u32) | ((s[at + 3]
        as u32) << 24u32)
}

/// Appends the little-endian bytes of `v`.
pub fn push_u16(out: &mut Vec<u8>, v: u16)
    ensures
        final(out)@ == old(out)@ + u16_bytes(v),
{
    out.push((v & 0xff) as u8);
    out.push((v >> 8u16) as u8);
    assert(out@ =~= old(out)@ + u16_bytes(v));
}

/// Appends the little-endian bytes of `v`.
pub fn push_u32(out: &mut Vec<u8>, v: u32)
    ensures
        final(out)@ == old(out)@ + u32_bytes(v),
{
    out.push((v & 0xff) as u8);
    out.push(((v >> 8u32) & 0xff) as u8);
    out.push(((v >> 16u32) & 0xff) as u8);
    out.push((v >> 24u32) as u8);
    assert(out@ =~= old(out)@ + u32_bytes(v));
}

/// The `N` bytes of `s` starting at `at`.
pub fn read_array<const N: usize>(s: &[u8], at: usize) -> (a: [u8; N])
    requires
        at + N <= s@.len(),
    ensures
        a@ == s@.subrange(at as int, at + N),
{
    let mut a = [0u8; N];
    let mut i: usize = 0;
    while i < N
        invariant
            i <= N,
            at + N <= s.len(),
            a@.len() == N,
            forall|j: int| 0 <= j < i ==> a@[j] == s@[at + j],
        decreases N - i,
    {
        a[i] = s[at + i];
        i = i + 1;
    }
    assert(a@ =~= s@.subrange(at as int, at + N));
    a
}

/// Appends all bytes of `bytes`.
pub fn push_bytes(out: &mut Vec<u8>, bytes: &[u8])
    ensures
        final(out)@ == old(out)@ + bytes@,
{
    let ghost start = out@;
    let mut i: usize = 0;
    while i < bytes.len()
        invariant
            i <= bytes@.len(),
            out@ == start + bytes@.subrange(0, i as int),
        decreases bytes@.len() - i,
    {
        out.push(bytes[i]);
        i = i + 1;
        assert(out@ =~= start + bytes@.subrange(0, i as int));
    }
    assert(bytes@.subrange(0, bytes@.len() as int) =~= bytes@);
}

} // verus!
