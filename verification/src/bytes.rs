//! Big-endian field access. XFS metadata is big-endian throughout, except the
//! CRC fields, which are stored little-endian.
use vstd::prelude::*;

verus! {

/// The two bytes of `v`, most significant first.
pub open spec fn be16_bytes(v: u16) -> Seq<u8> {
    seq![(v >> 8u16) as u8, v as u8]
}

/// The four bytes of `v`, most significant first.
pub open spec fn be32_bytes(v: u32) -> Seq<u8> {
    seq![(v >> 24u32) as u8, (v >> 16u32) as u8, (v >> 8u32) as u8, v as u8]
}

/// The eight bytes of `v`, most significant first.
pub open spec fn be64_bytes(v: u64) -> Seq<u8> {
    be32_bytes((v >> 32u64) as u32) + be32_bytes(v as u32)
}

/// The four bytes of `v`, least significant first.
pub open spec fn le32_bytes(v: u32) -> Seq<u8> {
    seq![v as u8, (v >> 8u32) as u8, (v >> 16u32) as u8, (v >> 24u32) as u8]
}

/// The big-endian `u16` held by `b0 b1`.
pub open spec fn from_be16(b0: u8, b1: u8) -> u16 {
    ((b0 as u16) << 8u16) | (b1 as u16)
}

/// The big-endian `u32` held by `b0 b1 b2 b3`.
pub open spec fn from_be32(b0: u8, b1: u8, b2: u8, b3: u8) -> u32 {
    ((b0 as u32) << 24u32) | ((b1 as u32) << 16u32) | ((b2 as u32) << 8u32) | (b3 as u32)
}

/// The big-endian `u16` at `off` in `s`.
pub open spec fn spec_be16(s: Seq<u8>, off: int) -> u16 {
    from_be16(s[off], s[off + 1])
}

/// The big-endian `u32` at `off` in `s`.
pub open spec fn spec_be32(s: Seq<u8>, off: int) -> u32 {
    from_be32(s[off], s[off + 1], s[off + 2], s[off + 3])
}

/// The big-endian `u64` at `off` in `s`.
pub open spec fn spec_be64(s: Seq<u8>, off: int) -> u64 {
    ((spec_be32(s, off) as u64) << 32u64) | (spec_be32(s, off + 4) as u64)
}

/// The little-endian `u32` at `off` in `s`.
pub open spec fn spec_le32(s: Seq<u8>, off: int) -> u32 {
    from_be32(s[off + 3], s[off + 2], s[off + 1], s[off])
}

/// `s` with the bytes from `off` on replaced by `w`.
pub open spec fn splice(s: Seq<u8>, off: int, w: Seq<u8>) -> Seq<u8> {
    s.subrange(0, off) + w + s.subrange(off + w.len(), s.len() as int)
}

/// Reading back what was written as big-endian gives the value.
pub proof fn lemma_be16_roundtrip(v: u16)
    ensures
        from_be16((v >> 8u16) as u8, v as u8) == v,
{
    assert(((((v >> 8u16) as u8) as u16) << 8u16) | ((v as u8) as u16) == v) by (bit_vector);
}

/// Reading back what was written as big-endian gives the value.
pub proof fn lemma_be32_roundtrip(v: u32)
    ensures
        from_be32((v >> 24u32) as u8, (v >> 16u32) as u8, (v >> 8u32) as u8, v as u8) == v,
{
    assert(((((v >> 24u32) as u8) as u32) << 24u32) | ((((v >> 16u32) as u8) as u32) << 16u32)
        | ((((v >> 8u32) as u8) as u32) << 8u32) | ((v as u8) as u32) == v) by (bit_vector);
}

/// Reading back what was written as big-endian gives the value.
pub proof fn lemma_be64_roundtrip(v: u64)
    ensures
        (((((v >> 32u64) as u32) as u64) << 32u64) | ((v as u32) as u64)) == v,
{
    assert((((((v >> 32u64) as u32) as u64) << 32u64) | ((v as u32) as u64)) == v) by (bit_vector);
}

/// Whatever the bytes, the value read back writes them again.
pub proof fn lemma_from_be32_bytes(b0: u8, b1: u8, b2: u8, b3: u8)
    ensures
        be32_bytes(from_be32(b0, b1, b2, b3)) == seq![b0, b1, b2, b3],
{
    let v = from_be32(b0, b1, b2, b3);
    assert((v >> 24u32) as u8 == b0 && (v >> 16u32) as u8 == b1 && (v >> 8u32) as u8 == b2
        && v as u8 == b3) by (bit_vector)
        requires
            v == ((b0 as u32) << 24u32) | ((b1 as u32) << 16u32) | ((b2 as u32) << 8u32) | (b3 as u32),
    ;
}

/// A read of the range a write covered gives back what was written; the
/// length is unchanged.
pub proof fn lemma_read_after_write(s: Seq<u8>, off: int, w: Seq<u8>)
    requires
        0 <= off,
        off + w.len() <= s.len(),
    ensures
        splice(s, off, w).len() == s.len(),
        splice(s, off, w).subrange(off, off + w.len()) == w,
{
    assert(splice(s, off, w).subrange(off, off + w.len()) =~= w);
}

/// A write leaves every byte outside its range as it was.
pub proof fn lemma_write_elsewhere(s: Seq<u8>, off: int, w: Seq<u8>, i: int)
    requires
        0 <= off,
        off + w.len() <= s.len(),
        0 <= i < s.len(),
        i < off || off + w.len() <= i,
    ensures
        splice(s, off, w)[i] == s[i],
{
}

/// A `u16`, `u32` or `u64` written big-endian at `off` reads back as
/// itself.
pub proof fn lemma_put_then_read(s: Seq<u8>, off: int, a: u16, b: u32, c: u64)
    requires
        0 <= off,
        off + 8 <= s.len(),
    ensures
        spec_be16(splice(s, off, be16_bytes(a)), off) == a,
        spec_be32(splice(s, off, be32_bytes(b)), off) == b,
        spec_be64(splice(s, off, be64_bytes(c)), off) == c,
{
    lemma_be16_roundtrip(a);
    lemma_be32_roundtrip(b);
    lemma_be32_roundtrip((c >> 32u64) as u32);
    lemma_be32_roundtrip(c as u32);
    lemma_be64_roundtrip(c);
    let t = splice(s, off, be64_bytes(c));
    assert(t[off] == ((c >> 32u64) as u32 >> 24u32) as u8);
    assert(t[off + 4] == (c as u32 >> 24u32) as u8);
}

/// Read a big-endian `u16` at `off`.
pub fn be16(b: &[u8], off: usize) -> (r: u16)
    requires
        off + 2 <= b.len(),
    ensures
        r == spec_be16(b@, off as int),
{
    ((b[off] as u16) << 8u16) | (b[off + 1] as u16)
}

/// Read a big-endian `u32` at `off`.
pub fn be32(b: &[u8], off: usize) -> (r: u32)
    requires
        off + 4 <= b.len(),
    ensures
        r == spec_be32(b@, off as int),
{
    ((b[off] as u32) << 24u32) | ((b[off + 1] as u32) << 16u32) | ((b[off + 2] as u32) << 8u32)
        | (b[off + 3] as u32)
}

/// Read a big-endian `u64` at `off`.
pub fn be64(b: &[u8], off: usize) -> (r: u64)
    requires
        off + 8 <= b.len(),
    ensures
        r == spec_be64(b@, off as int),
{
    ((be32(b, off) as u64) << 32u64) | (be32(b, off + 4) as u64)
}

/// Read a little-endian `u32` at `off` (a CRC field).
pub fn le32(b: &[u8], off: usize) -> (r: u32)
    requires
        off + 4 <= b.len(),
    ensures
        r == spec_le32(b@, off as int),
{
    ((b[off + 3] as u32) << 24u32) | ((b[off + 2] as u32) << 16u32) | ((b[off + 1] as u32) << 8u32)
        | (b[off] as u32)
}

/// Write a big-endian `u16` at `off`.
pub fn put16(b: &mut [u8], off: usize, v: u16)
    requires
        off + 2 <= old(b).len(),
    ensures
        final(b)@ == splice(old(b)@, off as int, be16_bytes(v)),
{
    b[off] = (v >> 8u16) as u8;
    b[off + 1] = v as u8;
    assert(b@ =~= splice(old(b)@, off as int, be16_bytes(v)));
}

/// Write a big-endian `u32` at `off`.
pub fn put32(b: &mut [u8], off: usize, v: u32)
    requires
        off + 4 <= old(b).len(),
    ensures
        final(b)@ == splice(old(b)@, off as int, be32_bytes(v)),
{
    b[off] = (v >> 24u32) as u8;
    b[off + 1] = (v >> 16u32) as u8;
    b[off + 2] = (v >> 8u32) as u8;
    b[off + 3] = v as u8;
    assert(b@ =~= splice(old(b)@, off as int, be32_bytes(v)));
}

/// Write a big-endian `u64` at `off`.
pub fn put64(b: &mut [u8], off: usize, v: u64)
    requires
        off + 8 <= old(b).len(),
    ensures
        final(b)@ == splice(old(b)@, off as int, be64_bytes(v)),
{
    put32(b, off, (v >> 32u64) as u32);
    put32(b, off + 4, v as u32);
    assert(b@ =~= splice(old(b)@, off as int, be64_bytes(v)));
}


/// `n` zero bytes.
pub open spec fn zeros(n: nat) -> Seq<u8> {
    Seq::new(n, |i: int| 0u8)
}

/// Append `x` big-endian.
pub fn push16(v: &mut Vec<u8>, x: u16)
    ensures
        final(v)@ == old(v)@ + be16_bytes(x),
{
    v.push((x >> 8u16) as u8);
    v.push(x as u8);
    assert(v@ =~= old(v)@ + be16_bytes(x));
}

/// Append `x` big-endian.
pub fn push32(v: &mut Vec<u8>, x: u32)
    ensures
        final(v)@ == old(v)@ + be32_bytes(x),
{
    v.push((x >> 24u32) as u8);
    v.push((x >> 16u32) as u8);
    v.push((x >> 8u32) as u8);
    v.push(x as u8);
    assert(v@ =~= old(v)@ + be32_bytes(x));
}

/// Append `x` big-endian.
pub fn push64(v: &mut Vec<u8>, x: u64)
    ensures
        final(v)@ == old(v)@ + be64_bytes(x),
{
    let ghost v0 = v@;
    push32(v, (x >> 32u64) as u32);
    push32(v, x as u32);
    assert(v@ =~= v0 + be64_bytes(x));
}

/// Append the bytes of `src`.
pub fn push_bytes(v: &mut Vec<u8>, src: &[u8])
    ensures
        final(v)@ == old(v)@ + src@,
{
    let ghost v0 = v@;
    let mut i: usize = 0;
    while i < src.len()
        invariant
            i <= src@.len(),
            v@ == v0 + src@.subrange(0, i as int),
        decreases src@.len() - i,
    {
        v.push(src[i]);
        i += 1;
        assert(v@ =~= v0 + src@.subrange(0, i as int));
    }
    assert(src@.subrange(0, src@.len() as int) =~= src@);
}

/// Append `n` zero bytes.
pub fn push_zeros(v: &mut Vec<u8>, n: usize)
    ensures
        final(v)@ == old(v)@ + zeros(n as nat),
{
    let ghost v0 = v@;
    let mut i: usize = 0;
    while i < n
        invariant
            i <= n,
            v@ == v0 + zeros(i as nat),
        decreases n - i,
    {
        v.push(0u8);
        i += 1;
        assert(v@ =~= v0 + zeros(i as nat));
    }
}

/// Copy `src` into `dst` at `off`.
pub fn copy_into(dst: &mut [u8], off: usize, src: &[u8])
    requires
        off + src@.len() <= old(dst).len(),
    ensures
        final(dst)@ == splice(old(dst)@, off as int, src@),
{
    let mut i: usize = 0;
    while i < src.len()
        invariant
            off + src@.len() <= dst.len(),
            dst@.len() == old(dst)@.len(),
            i <= src@.len(),
            dst@ == splice(old(dst)@, off as int, src@.subrange(0, i as int)),
        decreases src@.len() - i,
    {
        dst[off + i] = src[i];
        i += 1;
        assert(dst@ =~= splice(old(dst)@, off as int, src@.subrange(0, i as int)));
    }
    assert(src@.subrange(0, src@.len() as int) =~= src@);
}


/// Each value big-endian, one after another.
pub open spec fn be32_seq(s: Seq<u32>) -> Seq<u8>
    decreases s.len(),
{
    if s.len() == 0 {
        Seq::empty()
    } else {
        be32_seq(s.drop_last()) + be32_bytes(s.last())
    }
}

/// Where the four bytes at `off` are `v`'s, reading there gives `v`.
pub proof fn lemma_read32_at(f: Seq<u8>, off: int, v: u32)
    requires
        0 <= off,
        off + 4 <= f.len(),
        f.subrange(off, off + 4) == be32_bytes(v),
    ensures
        spec_be32(f, off) == v,
{
    assert(f[off] == f.subrange(off, off + 4)[0]);
    assert(f[off + 1] == f.subrange(off, off + 4)[1]);
    assert(f[off + 2] == f.subrange(off, off + 4)[2]);
    assert(f[off + 3] == f.subrange(off, off + 4)[3]);
    lemma_be32_roundtrip(v);
}

/// Four bytes for each value.
pub proof fn lemma_be32_seq_len(s: Seq<u32>)
    ensures
        be32_seq(s).len() == 4 * s.len(),
    decreases s.len(),
{
    if s.len() > 0 {
        lemma_be32_seq_len(s.drop_last());
    }
}

/// Append every value of `s` big-endian.
pub fn push32_all(v: &mut Vec<u8>, s: &[u32])
    ensures
        final(v)@ == old(v)@ + be32_seq(s@),
{
    let ghost v0 = v@;
    let mut i: usize = 0;
    assert(be32_seq(s@.subrange(0, 0)) =~= Seq::empty());
    assert(v@ =~= v0 + be32_seq(s@.subrange(0, 0)));
    while i < s.len()
        invariant
            i <= s@.len(),
            v@ == v0 + be32_seq(s@.subrange(0, i as int)),
        decreases s@.len() - i,
    {
        push32(v, s[i]);
        i += 1;
        assert(s@.subrange(0, i as int).drop_last() =~= s@.subrange(0, i - 1));
        assert(v@ =~= v0 + be32_seq(s@.subrange(0, i as int)));
    }
    assert(s@.subrange(0, s@.len() as int) =~= s@);
}

/// A copy of `b[from..to]`.
pub fn copy_range(b: &[u8], from: usize, to: usize) -> (r: Vec<u8>)
    requires
        from <= to <= b@.len(),
    ensures
        r@ == b@.subrange(from as int, to as int),
{
    let mut r: Vec<u8> = Vec::new();
    let mut i: usize = from;
    while i < to
        invariant
            from <= i <= to <= b@.len(),
            r@ == b@.subrange(from as int, i as int),
        decreases to - i,
    {
        r.push(b[i]);
        i += 1;
        assert(r@ =~= b@.subrange(from as int, i as int));
    }
    r
}

} // verus!
