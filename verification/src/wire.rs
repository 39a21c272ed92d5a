//! Big-endian integers and fixed-width fields, as the blocks lay them out.

use vstd::prelude::*;

verus! {

/// The four bytes of `x`, most significant first.
#[verifier::opaque]
pub open spec fn u32_be(x: u32) -> Seq<u8> {
    seq![
        (x / 0x100_0000) as u8,
        (x / 0x1_0000 % 0x100) as u8,
        (x / 0x100 % 0x100) as u8,
        (x % 0x100) as u8,
    ]
}

/// The number whose big-endian bytes are the first four of `b`.
#[verifier::opaque]
pub open spec fn u32_from_be(b: Seq<u8>) -> u32
    recommends
        b.len() >= 4,
{
    (b[0] * 0x100_0000 + b[1] * 0x1_0000 + b[2] * 0x100 + b[3]) as u32
}

/// The eight bytes of `x`, most significant first.
#[verifier::opaque]
pub open spec fn u64_be(x: u64) -> Seq<u8> {
    u32_be((x / 0x1_0000_0000) as u32) + u32_be((x % 0x1_0000_0000) as u32)
}

/// The number whose big-endian bytes are the first eight of `b`.
#[verifier::opaque]
pub open spec fn u64_from_be(b: Seq<u8>) -> u64
    recommends
        b.len() >= 8,
{
    (u32_from_be(b.subrange(0, 4)) * 0x1_0000_0000 + u32_from_be(b.subrange(4, 8))) as u64
}

/// Reading back what `u32_be` wrote gives the number again.
pub proof fn lemma_u32_round_trip(x: u32)
    ensures
        u32_be(x).len() == 4,
        u32_from_be(u32_be(x)) == x,
{
    reveal(u32_be);
    reveal(u32_from_be);
}

/// Writing what `u32_from_be` read gives the four bytes again.
pub proof fn lemma_u32_bytes_round_trip(b: Seq<u8>)
    requires
        b.len() == 4,
    ensures
        u32_be(u32_from_be(b)) == b,
{
    reveal(u32_be);
    reveal(u32_from_be);
    let (b0, b1, b2, b3) = (b[0] as int, b[1] as int, b[2] as int, b[3] as int);
    let low = b2 * 0x100 + b3;
    let mid = b1 * 0x1_0000 + low;
    let x = b0 * 0x100_0000 + mid;
    assert(0 <= low < 0x1_0000 && 0 <= mid < 0x100_0000);
    assert(x / 0x100_0000 == b0 && x % 0x100_0000 == mid);
    assert(x / 0x1_0000 == b0 * 0x100 + b1 && x % 0x1_0000 == low);
    assert(x / 0x100 == b0 * 0x1_0000 + b1 * 0x100 + b2 && x % 0x100 == b3);
    assert(u32_be(u32_from_be(b)) =~= b);
}

/// Reading back what `u64_be` wrote gives the number again.
pub proof fn lemma_u64_round_trip(x: u64)
    ensures
        u64_be(x).len() == 8,
        u64_from_be(u64_be(x)) == x,
{
    reveal(u64_be);
    reveal(u64_from_be);
    let high = (x / 0x1_0000_0000) as u32;
    let low = (x % 0x1_0000_0000) as u32;
    lemma_u32_round_trip(high);
    lemma_u32_round_trip(low);
    assert(u64_be(x).subrange(0, 4) =~= u32_be(high));
    assert(u64_be(x).subrange(4, 8) =~= u32_be(low));
}

/// Writing what `u64_from_be` read gives the eight bytes again.
pub proof fn lemma_u64_bytes_round_trip(b: Seq<u8>)
    requires
        b.len() == 8,
    ensures
        u64_be(u64_from_be(b)) == b,
{
    reveal(u64_be);
    reveal(u64_from_be);
    let high = u32_from_be(b.subrange(0, 4));
    let low = u32_from_be(b.subrange(4, 8));
    lemma_u32_bytes_round_trip(b.subrange(0, 4));
    lemma_u32_bytes_round_trip(b.subrange(4, 8));
    let x = u64_from_be(b);
    assert((x / 0x1_0000_0000) as u32 == high);
    assert((x % 0x1_0000_0000) as u32 == low);
    assert(u64_be(x) =~= b.subrange(0, 4) + b.subrange(4, 8));
    assert(b.subrange(0, 4) + b.subrange(4, 8) =~= b);
}

/// Whether `a` and `b` hold the same bytes.
pub fn same_bytes(a: &[u8], b: &[u8]) -> (same: bool)
    ensures
        same == (a@ == b@),
{
    if a.len() != b.len() {
        return false;
    }
    let mut i: usize = 0;
    while i < a.len()
        invariant
            i <= a.len(),
            a@.len() == b@.len(),
            forall|j: int| 0 <= j < i ==> a@[j] == b@[j],
        decreases a.len() - i,
    {
        if a[i] != b[i] {
            return false;
        }
        i += 1;
    }
    assert(a@ =~= b@);
    true
}

/// Appends `src` to `out`.
pub fn put_bytes(out: &mut Vec<u8>, src: &[u8])
    ensures
        final(out)@ == old(out)@ + src@,
{
    let ghost before = out@;
    let mut i: usize = 0;
    while i < src.len()
        invariant
            i <= src.len(),
            out@ == before + src@.take(i as int),
        decreases src.len() - i,
    {
        out.push(src[i]);
        assert(src@.take(i + 1) =~= src@.take(i as int).push(src@[i as int]));
        i += 1;
    }
    assert(src@.take(i as int) =~= src@);
}

/// Appends the big-endian bytes of `x` to `out`.
pub fn put_u32_be(out: &mut Vec<u8>, x: u32)
    ensures
        final(out)@ == old(out)@ + u32_be(x),
{
    proof {
        reveal(u32_be);
    }
    let ghost before = out@;
    out.push((x / 0x100_0000) as u8);
    out.push((x / 0x1_0000 % 0x100) as u8);
    out.push((x / 0x100 % 0x100) as u8);
    out.push((x % 0x100) as u8);
    assert(out@ =~= before + u32_be(x));
}

/// Appends the big-endian bytes of `x` to `out`.
pub fn put_u64_be(out: &mut Vec<u8>, x: u64)
    ensures
        final(out)@ == old(out)@ + u64_be(x),
{
    proof {
        reveal(u64_be);
    }
    let ghost before = out@;
    let high = (x / 0x1_0000_0000) as u32;
    let low = (x % 0x1_0000_0000) as u32;
    put_u32_be(out, high);
    put_u32_be(out, low);
    assert(out@ =~= before + u64_be(x));
}

/// Reads the big-endian number in the four bytes of `src` that start at `at`.
pub fn get_u32_be(src: &[u8], at: usize) -> (x: u32)
    requires
        at + 4 <= src@.len(),
    ensures
        x == u32_from_be(src@.subrange(at as int, at + 4)),
{
    proof {
        reveal(u32_from_be);
    }
    let b0 = src[at] as u32;
    let b1 = src[at + 1] as u32;
    let b2 = src[at + 2] as u32;
    let b3 = src[at + 3] as u32;
    b0 * 0x100_0000 + b1 * 0x1_0000 + b2 * 0x100 + b3
}

/// Reads the big-endian number in the eight bytes of `src` that start at `at`.
pub fn get_u64_be(src: &[u8], at: usize) -> (x: u64)
    requires
        at + 8 <= src@.len(),
    ensures
        x == u64_from_be(src@.subrange(at as int, at + 8)),
{
    proof {
        reveal(u64_from_be);
    }
    let len = src.len();
    assert(at + 8 <= len);
    let high = get_u32_be(src, at) as u64;
    let low = get_u32_be(src, at + 4) as u64;
    let ghost field = src@.subrange(at as int, at + 8);
    assert(field.subrange(0, 4) =~= src@.subrange(at as int, at + 4));
    assert(field.subrange(4, 8) =~= src@.subrange(at + 4, at + 8));
    high * 0x1_0000_0000 + low
}

/// Copies the `N` bytes of `src` that start at `at`.
pub fn get_array<const N: usize>(src: &[u8], at: usize) -> (field: [u8; N])
    requires
        at + N <= src@.len(),
    ensures
        field@ == src@.subrange(at as int, at + N),
{
    let len = src.len();
    let mut field = [0u8; N];
    let mut i: usize = 0;
    while i < N
        invariant
            i <= N,
            at + N <= src@.len() == len,
            field@.len() == N,
            forall|j: int| 0 <= j < i ==> field@[j] == src@[at + j],
        decreases N - i,
    {
        field[i] = src[at + i];
        i += 1;
    }
    assert(field@ =~= src@.subrange(at as int, at + N));
    field
}

} // verus!
