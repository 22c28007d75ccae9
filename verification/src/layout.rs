//! Little-endian byte fields: how integers and fixed byte strings sit in an account's data.

use vstd::prelude::*;

verus! {

/// The `u16` stored little-endian at `b[at..at + 2]`.
pub open spec fn le_u16(b: Seq<u8>, at: int) -> u16 {
    (b[at] as u16) | ((b[at + 1] as u16) << 8u16)
}

/// The `u32` stored little-endian at `b[at..at + 4]`.
pub open spec fn le_u32(b: Seq<u8>, at: int) -> u32 {
    (b[at] as u32) | ((b[at + 1] as u32) << 8u32) | ((b[at + 2] as u32) << 16u32) | ((b[at
        + 3] as u32) << 24u32)
}

/// The `u64` stored little-endian at `b[at..at + 8]`.
pub open spec fn le_u64(b: Seq<u8>, at: int) -> u64 {
    (b[at] as u64) | ((b[at + 1] as u64) << 8u64) | ((b[at + 2] as u64) << 16u64) | ((b[at
        + 3] as u64) << 24u64) | ((b[at + 4] as u64) << 32u64) | ((b[at + 5] as u64) << 40u64)
        | ((b[at + 6] as u64) << 48u64) | ((b[at + 7] as u64) << 56u64)
}

/// `b[at..at + s.len()]` holds exactly `s`.
pub open spec fn bytes_match(b: Seq<u8>, at: int, s: Seq<u8>) -> bool {
    forall|k: int| 0 <= k < s.len() ==> #[trigger] b[at + k] == s[k]
}

/// `b2` starts with `b`.
pub open spec fn extends(b2: Seq<u8>, b: Seq<u8>) -> bool {
    &&& b.len() <= b2.len()
    &&& forall|k: int| 0 <= k < b.len() ==> #[trigger] b2[k] == b[k]
}

/// `b1` and `b2` agree on `[at, at + n)`.
pub open spec fn agree(b1: Seq<u8>, b2: Seq<u8>, at: int, n: int) -> bool {
    forall|k: int| at <= k < at + n ==> #[trigger] b1[k] == #[trigger] b2[k]
}

proof fn lemma_u16_bytes(x: u16)
    ensures
        (((x & 0xff) as u8) as u16) | (((((x >> 8u16) & 0xff) as u8) as u16) << 8u16) == x,
{
    assert((((x & 0xff) as u8) as u16) | (((((x >> 8u16) & 0xff) as u8) as u16) << 8u16) == x)
        by (bit_vector);
}

proof fn lemma_u32_bytes(x: u32)
    ensures
        (((x & 0xff) as u8) as u32) | (((((x >> 8u32) & 0xff) as u8) as u32) << 8u32) | (((((x
            >> 16u32) & 0xff) as u8) as u32) << 16u32) | (((((x >> 24u32) & 0xff) as u8) as u32)
            << 24u32) == x,
{
    assert((((x & 0xff) as u8) as u32) | (((((x >> 8u32) & 0xff) as u8) as u32) << 8u32) | (((((x
        >> 16u32) & 0xff) as u8) as u32) << 16u32) | (((((x >> 24u32) & 0xff) as u8) as u32)
        << 24u32) == x) by (bit_vector);
}

proof fn lemma_u64_bytes(x: u64)
    ensures
        (((x & 0xff) as u8) as u64) | (((((x >> 8u64) & 0xff) as u8) as u64) << 8u64) | (((((x
            >> 16u64) & 0xff) as u8) as u64) << 16u64) | (((((x >> 24u64) & 0xff) as u8) as u64)
            << 24u64) | (((((x >> 32u64) & 0xff) as u8) as u64) << 32u64) | (((((x >> 40u64)
            & 0xff) as u8) as u64) << 40u64) | (((((x >> 48u64) & 0xff) as u8) as u64) << 48u64)
            | (((((x >> 56u64) & 0xff) as u8) as u64) << 56u64) == x,
{
    assert((((x & 0xff) as u8) as u64) | (((((x >> 8u64) & 0xff) as u8) as u64) << 8u64) | (((((x
        >> 16u64) & 0xff) as u8) as u64) << 16u64) | (((((x >> 24u64) & 0xff) as u8) as u64)
        << 24u64) | (((((x >> 32u64) & 0xff) as u8) as u64) << 32u64) | (((((x >> 40u64) & 0xff)
        as u8) as u64) << 40u64) | (((((x >> 48u64) & 0xff) as u8) as u64) << 48u64) | (((((x
        >> 56u64) & 0xff) as u8) as u64) << 56u64) == x) by (bit_vector);
}

/// A field read from bytes on which two buffers agree reads the same from both.
pub proof fn lemma_le_frame(b1: Seq<u8>, b2: Seq<u8>, at: int)
    requires
        agree(b1, b2, at, 8),
    ensures
        le_u64(b1, at) == le_u64(b2, at),
{
    assert(b1[at] == b2[at]);
    assert(b1[at + 1] == b2[at + 1]);
    assert(b1[at + 2] == b2[at + 2]);
    assert(b1[at + 3] == b2[at + 3]);
    assert(b1[at + 4] == b2[at + 4]);
    assert(b1[at + 5] == b2[at + 5]);
    assert(b1[at + 6] == b2[at + 6]);
    assert(b1[at + 7] == b2[at + 7]);
}

/// A 16-bit field read from bytes on which two buffers agree reads the same from both.
pub proof fn lemma_le16_frame(b1: Seq<u8>, b2: Seq<u8>, at: int)
    requires
        agree(b1, b2, at, 2),
    ensures
        le_u16(b1, at) == le_u16(b2, at),
{
    assert(b1[at] == b2[at]);
    assert(b1[at + 1] == b2[at + 1]);
}

/// A 32-bit field read from bytes on which two buffers agree reads the same from both.
pub proof fn lemma_le32_frame(b1: Seq<u8>, b2: Seq<u8>, at: int)
    requires
        agree(b1, b2, at, 4),
    ensures
        le_u32(b1, at) == le_u32(b2, at),
{
    assert(b1[at] == b2[at]);
    assert(b1[at + 1] == b2[at + 1]);
    assert(b1[at + 2] == b2[at + 2]);
    assert(b1[at + 3] == b2[at + 3]);
}

pub fn read_u16(data: &[u8], at: usize) -> (r: u16)
    requires
        at + 2 <= data@.len(),
    ensures
        r == le_u16(data@, at as int),
{
    (data[at] as u16) | ((data[at + 1] as u16) << 8u16)
}

pub fn read_u32(data: &[u8], at: usize) -> (r: u32)
    requires
        at + 4 <= data@.len(),
    ensures
        r == le_u32(data@, at as int),
{
    (data[at] as u32) | ((data[at + 1] as u32) << 8u32) | ((data[at + 2] as u32) << 16u32) | ((
    data[at + 3] as u32) << 24u32)
}

pub fn read_u64(data: &[u8], at: usize) -> (r: u64)
    requires
        at + 8 <= data@.len(),
    ensures
        r == le_u64(data@, at as int),
{
    (data[at] as u64) | ((data[at + 1] as u64) << 8u64) | ((data[at + 2] as u64) << 16u64) | ((
    data[at + 3] as u64) << 24u64) | ((data[at + 4] as u64) << 32u64) | ((data[at + 5] as u64)
        << 40u64) | ((data[at + 6] as u64) << 48u64) | ((data[at + 7] as u64) << 56u64)
}

/// The `N` bytes at `data[at..at + N]`.
pub fn read_array<const N: usize>(data: &[u8], at: usize) -> (r: [u8; N])
    requires
        at + N <= data@.len(),
    ensures
        bytes_match(data@, at as int, r@),
        r@.len() == N,
{
    let mut out = [0u8; N];
    let len = data.len();
    let mut i: usize = 0;
    while i < N
        invariant
            i <= N,
            len == data@.len(),
            at + N <= data@.len(),
            out@.len() == N,
            forall|k: int| 0 <= k < i ==> #[trigger] out@[k] == data@[at + k],
        decreases N - i,
    {
        out[i] = data[at + i];
        i = i + 1;
    }
    out
}

pub fn push_u16(out: &mut Vec<u8>, x: u16)
    ensures
        final(out)@.len() == old(out)@.len() + 2,
        extends(final(out)@, old(out)@),
        le_u16(final(out)@, old(out)@.len() as int) == x,
{
    out.push((x & 0xff) as u8);
    out.push(((x >> 8u16) & 0xff) as u8);
    proof {
        lemma_u16_bytes(x);
    }
}

pub fn push_u32(out: &mut Vec<u8>, x: u32)
    ensures
        final(out)@.len() == old(out)@.len() + 4,
        extends(final(out)@, old(out)@),
        le_u32(final(out)@, old(out)@.len() as int) == x,
{
    out.push((x & 0xff) as u8);
    out.push(((x >> 8u32) & 0xff) as u8);
    out.push(((x >> 16u32) & 0xff) as u8);
    out.push(((x >> 24u32) & 0xff) as u8);
    proof {
        lemma_u32_bytes(x);
    }
}

pub fn push_u64(out: &mut Vec<u8>, x: u64)
    ensures
        final(out)@.len() == old(out)@.len() + 8,
        extends(final(out)@, old(out)@),
        le_u64(final(out)@, old(out)@.len() as int) == x,
{
    out.push((x & 0xff) as u8);
    out.push(((x >> 8u64) & 0xff) as u8);
    out.push(((x >> 16u64) & 0xff) as u8);
    out.push(((x >> 24u64) & 0xff) as u8);
    out.push(((x >> 32u64) & 0xff) as u8);
    out.push(((x >> 40u64) & 0xff) as u8);
    out.push(((x >> 48u64) & 0xff) as u8);
    out.push(((x >> 56u64) & 0xff) as u8);
    proof {
        lemma_u64_bytes(x);
    }
}

pub fn push_bytes(out: &mut Vec<u8>, s: &[u8])
    ensures
        final(out)@.len() == old(out)@.len() + s@.len(),
        extends(final(out)@, old(out)@),
        bytes_match(final(out)@, old(out)@.len() as int, s@),
{
    let ghost start = out@;
    let mut i: usize = 0;
    while i < s.len()
        invariant
            i <= s@.len(),
            out@.len() == start.len() + i,
            extends(out@, start),
            forall|k: int| 0 <= k < i ==> #[trigger] out@[start.len() + k] == s@[k],
        decreases s@.len() - i,
    {
        out.push(s[i]);
        i = i + 1;
    }
}

} // verus!
