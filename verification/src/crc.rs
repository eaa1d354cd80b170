//! CRC32C (Castagnoli), the checksum on every v5 metadata structure.
//!
//! XFS checksums a structure with its own CRC field treated as zero, stores
//! the result little-endian, and — unlike most users of CRC32C — keeps the
//! final inversion (`xfs_start_cksum_safe` / `xfs_end_cksum`).
use vstd::prelude::*;
use crate::bytes::{from_be32, le32, le32_bytes, lemma_be32_roundtrip, splice, spec_le32};

verus! {

/// The reflected CRC32C polynomial.
pub const POLY: u32 = 0x82f6_3b78;

/// One bit of the reflected CRC register update.
pub open spec fn crc_step(c: u32) -> u32 {
    if c & 1u32 != 0u32 { POLY ^ (c >> 1u32) } else { c >> 1u32 }
}

/// Eight bit steps: the register after shifting out one byte.
pub open spec fn crc_bits8(c: u32) -> u32 {
    crc_step(crc_step(crc_step(crc_step(crc_step(crc_step(crc_step(crc_step(c))))))))
}

/// The register after absorbing byte `b`.
pub open spec fn crc_byte(c: u32, b: u8) -> u32 {
    crc_bits8(c ^ (b as u32))
}

/// The register after absorbing `s`, starting from `c`.
pub open spec fn crc_update(c: u32, s: Seq<u8>) -> u32
    decreases s.len(),
{
    if s.len() == 0 {
        c
    } else {
        crc_byte(crc_update(c, s.drop_last()), s.last())
    }
}

/// CRC32C of `s`: initial register all ones, final inversion.
pub open spec fn spec_crc32c(s: Seq<u8>) -> u32 {
    !crc_update(0xffff_ffffu32, s)
}

/// Four zero bytes, standing for a CRC field while it is checksummed.
pub open spec fn zero4() -> Seq<u8> {
    seq![0u8, 0u8, 0u8, 0u8]
}

/// The checksum XFS keeps for `buf` whose CRC field is at `off`: the CRC32C
/// of `buf` with that field read as zero.
pub open spec fn spec_cksum(buf: Seq<u8>, off: int) -> u32 {
    spec_crc32c(splice(buf, off, zero4()))
}

/// `buf` with its checksum stored little-endian at `off`.
pub open spec fn stamped(buf: Seq<u8>, off: int) -> Seq<u8> {
    splice(buf, off, le32_bytes(spec_cksum(buf, off)))
}

/// Whether the checksum stored at `off` matches the rest of `buf`.
pub open spec fn verifies(buf: Seq<u8>, off: int) -> bool {
    &&& 0 <= off
    &&& off + 4 <= buf.len()
    &&& spec_le32(buf, off) == spec_cksum(buf, off)
}

proof fn lemma_update_append(c: u32, a: Seq<u8>, b: Seq<u8>)
    ensures
        crc_update(c, a + b) == crc_update(crc_update(c, a), b),
    decreases b.len(),
{
    if b.len() == 0 {
        assert(a + b =~= a);
    } else {
        assert((a + b).drop_last() =~= a + b.drop_last());
        lemma_update_append(c, a, b.drop_last());
    }
}

/// The table-driven update computes the same register as the bitwise one.
proof fn lemma_table_step(c: u32, b: u8)
    ensures
        crc_byte(c, b) == crc_bits8((c ^ (b as u32)) & 0xffu32) ^ (c >> 8u32),
{
    let x = c ^ (b as u32);
    assert(crc_bits8(x) == crc_bits8(x & 0xffu32) ^ (x >> 8u32)) by (bit_vector);
    assert(x >> 8u32 == c >> 8u32) by (bit_vector)
        requires
            x == c ^ (b as u32),
    ;
}

fn step(c: u32) -> (r: u32)
    ensures
        r == crc_step(c),
{
    if c & 1 != 0 {
        POLY ^ (c >> 1)
    } else {
        c >> 1
    }
}

/// The 256-entry lookup table: the register after shifting out each byte.
fn table() -> (t: Vec<u32>)
    ensures
        t@.len() == 256,
        forall|i: int| 0 <= i < 256 ==> #[trigger] t@[i] == crc_bits8(i as u32),
{
    let mut t: Vec<u32> = Vec::with_capacity(256);
    let mut i: u32 = 0;
    while i < 256
        invariant
            i <= 256,
            t@.len() == i,
            forall|j: int| 0 <= j < i ==> #[trigger] t@[j] == crc_bits8(j as u32),
        decreases 256 - i,
    {
        let c = step(step(step(step(step(step(step(step(i))))))));
        t.push(c);
        i += 1;
    }
    t
}

/// Absorb `buf[start..end]` into register `c`.
fn update(t: &Vec<u32>, c: u32, buf: &[u8], start: usize, end: usize) -> (r: u32)
    requires
        t@.len() == 256,
        forall|i: int| 0 <= i < 256 ==> #[trigger] t@[i] == crc_bits8(i as u32),
        start <= end <= buf@.len(),
    ensures
        r == crc_update(c, buf@.subrange(start as int, end as int)),
{
    let mut r = c;
    let mut i = start;
    while i < end
        invariant
            t@.len() == 256,
            forall|k: int| 0 <= k < 256 ==> #[trigger] t@[k] == crc_bits8(k as u32),
            start <= i <= end <= buf@.len(),
            r == crc_update(c, buf@.subrange(start as int, i as int)),
        decreases end - i,
    {
        let b = buf[i];
        proof {
            lemma_table_step(r, b);
            let s = buf@.subrange(start as int, i + 1);
            assert(s.drop_last() =~= buf@.subrange(start as int, i as int));
            assert(((r ^ (b as u32)) & 0xffu32) < 256u32) by (bit_vector);
        }
        r = t[((r ^ (b as u32)) & 0xff) as usize] ^ (r >> 8);
        i += 1;
    }
    r
}

/// CRC32C of `data`.
pub fn crc32c(data: &[u8]) -> (r: u32)
    ensures
        r == spec_crc32c(data@),
{
    let t = table();
    let c = update(&t, 0xffff_ffff, data, 0, data.len());
    assert(data@.subrange(0, data@.len() as int) =~= data@);
    !c
}

/// The checksum of `buf` as XFS computes it: the four bytes at `off` (the
/// structure's own CRC field) read as zero.
pub fn cksum(buf: &[u8], off: usize) -> (r: u32)
    requires
        off + 4 <= buf.len(),
    ensures
        r == spec_cksum(buf@, off as int),
{
    let t = table();
    let zeros: [u8; 4] = [0u8; 4];
    let c = update(&t, 0xffff_ffff, buf, 0, off);
    let c = update(&t, c, &zeros, 0, 4);
    let c = update(&t, c, buf, off + 4, buf.len());
    proof {
        let a = buf@.subrange(0, off as int);
        let z = zeros@.subrange(0, 4);
        let b = buf@.subrange(off + 4, buf@.len() as int);
        assert(z =~= zero4());
        lemma_update_append(0xffff_ffffu32, a, z);
        lemma_update_append(0xffff_ffffu32, a + z, b);
        assert(a + z + b =~= splice(buf@, off as int, zero4()));
    }
    !c
}

/// Compute and store the checksum of `buf` at `off`.
pub fn stamp(buf: &mut [u8], off: usize)
    requires
        off + 4 <= old(buf).len(),
    ensures
        final(buf)@ == stamped(old(buf)@, off as int),
{
    let c = cksum(buf, off);
    buf[off] = c as u8;
    buf[off + 1] = (c >> 8) as u8;
    buf[off + 2] = (c >> 16) as u8;
    buf[off + 3] = (c >> 24) as u8;
    assert(buf@ =~= stamped(old(buf)@, off as int));
}

/// Whether the checksum stored at `off` matches the rest of `buf`.
pub fn verify(buf: &[u8], off: usize) -> (r: bool)
    ensures
        r == verifies(buf@, off as int),
{
    buf.len() >= 4 && off <= buf.len() - 4 && le32(buf, off) == cksum(buf, off)
}

/// Stamping a buffer makes its checksum verify, whatever it held before.
pub proof fn lemma_stamp_then_verify(buf: Seq<u8>, off: int)
    requires
        0 <= off,
        off + 4 <= buf.len(),
    ensures
        verifies(stamped(buf, off), off),
{
    let c = spec_cksum(buf, off);
    let s = stamped(buf, off);
    assert(splice(s, off, zero4()) =~= splice(buf, off, zero4()));
    assert(spec_le32(s, off) == c) by {
        assert(s[off] == c as u8 && s[off + 1] == (c >> 8u32) as u8 && s[off + 2] == (c >> 16u32) as u8
            && s[off + 3] == (c >> 24u32) as u8);
        assert(from_be32((c >> 24u32) as u8, (c >> 16u32) as u8, (c >> 8u32) as u8, c as u8) == c)
            by {
            lemma_be32_roundtrip(c);
        }
    }
}

/// Stamping twice is stamping once: the checksum ignores its own field.
pub proof fn lemma_stamp_idempotent(buf: Seq<u8>, off: int)
    requires
        0 <= off,
        off + 4 <= buf.len(),
    ensures
        stamped(stamped(buf, off), off) == stamped(buf, off),
{
    let s = stamped(buf, off);
    assert(splice(s, off, zero4()) =~= splice(buf, off, zero4()));
    assert(stamped(s, off) =~= s);
}


/// Stamping keeps the buffer's length and the bytes before the CRC.
pub proof fn lemma_stamped_len(buf: Seq<u8>, off: int)
    requires
        0 <= off,
        off + 4 <= buf.len(),
    ensures
        stamped(buf, off).len() == buf.len(),
        forall|i: int| 0 <= i < off ==> #[trigger] stamped(buf, off)[i] == buf[i],
{
}

} // verus!
