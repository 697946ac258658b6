use vstd::prelude::*;

verus! {

/// The two bytes of `v` in network (big-endian) order.
pub open spec fn be16(v: u16) -> Seq<u8> {
    seq![(v / 256) as u8, (v % 256) as u8]
}

/// The four bytes of `v` in network (big-endian) order.
pub open spec fn be32_bytes(v: u32) -> Seq<u8> {
    seq![(v / 0x100_0000) as u8, (v / 0x1_0000 % 256) as u8, (v / 256 % 256) as u8, (v % 256) as u8]
}

/// The number that two bytes in network order stand for.
pub open spec fn be16_value(hi: u8, lo: u8) -> int {
    hi as int * 256 + lo as int
}

/// `n` zero bytes.
pub open spec fn zeros(n: nat) -> Seq<u8> {
    Seq::new(n, |_i: int| 0u8)
}

/// Appends the bytes of `src` to `v`.
pub fn append_bytes(v: &mut Vec<u8>, src: &[u8])
    ensures
        final(v)@ == old(v)@ + src@,
{
    let mut i: usize = 0;
    while i < src.len()
        invariant
            i <= src@.len(),
            v@ == old(v)@ + src@.subrange(0, i as int),
        decreases src@.len() - i,
    {
        v.push(src[i]);
        i = i + 1;
        assert(v@ =~= old(v)@ + src@.subrange(0, i as int));
    }
    assert(src@.subrange(0, src@.len() as int) =~= src@);
}

/// Appends `n` zero bytes to `v`.
pub fn append_zeros(v: &mut Vec<u8>, n: usize)
    ensures
        final(v)@ == old(v)@ + zeros(n as nat),
{
    let mut i: usize = 0;
    while i < n
        invariant
            i <= n,
            v@ == old(v)@ + zeros(i as nat),
        decreases n - i,
    {
        v.push(0u8);
        i = i + 1;
        assert(v@ =~= old(v)@ + zeros(i as nat));
    }
}

/// Appends the two bytes of `x` in network order.
pub fn append_be16(v: &mut Vec<u8>, x: u16)
    ensures
        final(v)@ == old(v)@ + be16(x),
{
    let hi: u8 = (x >> 8u16) as u8;
    let lo: u8 = (x & 0xffu16) as u8;
    assert(hi == (x / 256) as u8 && lo == (x % 256) as u8) by (bit_vector)
        requires
            hi == (x >> 8u16) as u8,
            lo == (x & 0xffu16) as u8,
    ;
    v.push(hi);
    v.push(lo);
    assert(v@ =~= old(v)@ + be16(x));
}

/// A fresh vector holding the bytes of `buf` from `from` up to `to`.
pub fn copy_range(buf: &[u8], from: usize, to: usize) -> (r: Vec<u8>)
    requires
        from <= to <= buf@.len(),
    ensures
        r@ == buf@.subrange(from as int, to as int),
{
    let mut r: Vec<u8> = Vec::new();
    let mut i: usize = from;
    while i < to
        invariant
            from <= i <= to <= buf@.len(),
            r@ == buf@.subrange(from as int, i as int),
        decreases to - i,
    {
        r.push(buf[i]);
        i = i + 1;
        assert(r@ =~= buf@.subrange(from as int, i as int));
    }
    r
}

/// Appends the four bytes of `x` in network order.
pub fn append_be32(v: &mut Vec<u8>, x: u32)
    ensures
        final(v)@ == old(v)@ + be32_bytes(x),
{
    let b0: u8 = (x >> 24u32) as u8;
    let b1: u8 = ((x >> 16u32) & 0xffu32) as u8;
    let b2: u8 = ((x >> 8u32) & 0xffu32) as u8;
    let b3: u8 = (x & 0xffu32) as u8;
    assert(b0 == (x / 0x100_0000) as u8 && b1 == (x / 0x1_0000 % 256) as u8 && b2 == (x / 256 % 256) as u8
        && b3 == (x % 256) as u8) by (bit_vector)
        requires
            b0 == (x >> 24u32) as u8,
            b1 == ((x >> 16u32) & 0xffu32) as u8,
            b2 == ((x >> 8u32) & 0xffu32) as u8,
            b3 == (x & 0xffu32) as u8,
    ;
    v.push(b0);
    v.push(b1);
    v.push(b2);
    v.push(b3);
    assert(v@ =~= old(v)@ + be32_bytes(x));
}

/// The six bytes of `buf` from `at` on.
pub fn read6(buf: &[u8], at: usize) -> (r: [u8; 6])
    requires
        at + 6 <= buf@.len(),
    ensures
        r@ == buf@.subrange(at as int, at + 6),
{
    let r = [buf[at], buf[at + 1], buf[at + 2], buf[at + 3], buf[at + 4], buf[at + 5]];
    assert(r@ =~= buf@.subrange(at as int, at + 6));
    r
}

/// The four bytes of `buf` from `at` on.
pub fn read4(buf: &[u8], at: usize) -> (r: [u8; 4])
    requires
        at + 4 <= buf@.len(),
    ensures
        r@ == buf@.subrange(at as int, at + 4),
{
    let r = [buf[at], buf[at + 1], buf[at + 2], buf[at + 3]];
    assert(r@ =~= buf@.subrange(at as int, at + 4));
    r
}

} // verus!
