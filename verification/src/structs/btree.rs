//! Short-form (per-AG) btree blocks: `struct xfs_btree_block` with the v5
//! `xfs_btree_block_shdr`, and the records of each per-AG btree.
pub mod magic;
pub mod off;
pub mod owner;

use vstd::prelude::*;
use crate::bytes::{be16_bytes, be32_bytes, be64_bytes, push16, push32, push64, push_bytes, push_zeros, zeros};
use crate::crc::{stamp, stamped};
use crate::structs::NULL32;

verus! {

/// Size of a free space record (`struct xfs_alloc_rec`).
pub const ALLOC_REC: usize = 8;
/// Size of an inode btree record (`struct xfs_inobt_rec`).
pub const INOBT_REC: usize = 16;
/// Size of a reverse mapping record (`struct xfs_rmap_rec`).
pub const RMAP_REC: usize = 24;
/// Size of a refcount record (`struct xfs_refcount_rec`).
pub const REFC_REC: usize = 12;

/// A free extent.
#[derive(Debug, Clone, Copy, PartialEq, Eq, Structural, PartialOrd, Ord)]
pub struct AllocRec {
    /// First block.
    pub start: u32,
    /// Length in blocks.
    pub count: u32,
}

/// An inode chunk (sparse record format when `sparse`).
#[derive(Debug, Clone, Copy, PartialEq, Eq, Structural)]
pub struct InobtRec {
    /// First inode (AG-relative).
    pub startino: u32,
    /// Sparse chunks: which 4-inode groups are holes.
    pub holemask: u16,
    /// Inodes present.
    pub count: u8,
    /// Free inodes.
    pub freecount: u8,
    /// Free bitmap, one bit per inode.
    pub free: u64,
}

/// A reverse mapping of a special owner (no offset or flags).
#[derive(Debug, Clone, Copy, PartialEq, Eq, Structural)]
pub struct RmapRec {
    /// First block.
    pub start: u32,
    /// Length in blocks.
    pub count: u32,
    /// `XFS_RMAP_OWN_*` or an inode number.
    pub owner: u64,
}


/// A one-level btree block: the v5 short-form header, the records, zeros,
/// and the CRC.
pub open spec fn leaf_block_spec(magic: u32, daddr: u64, agno: u32, uuid: Seq<u8>, recs: Seq<u8>, numrecs: u16, blocksize: nat) -> Seq<u8> {
    stamped(
        be32_bytes(magic) + be16_bytes(0) + be16_bytes(numrecs) + be32_bytes(NULL32) + be32_bytes(
            NULL32,
        ) + be64_bytes(daddr) + be64_bytes(0) + uuid + be32_bytes(agno) + zeros(4) + recs + zeros(
            (blocksize - off::RECS - recs.len()) as nat,
        ),
        off::CRC as int,
    )
}

/// Build a single-level (leaf root) btree block of `blocksize` bytes at
/// disk address `daddr`, holding `recs` already encoded, and stamp its CRC.
/// What `xfs_btree_init_buf` and the records inserted after it produce.
pub fn leaf_block(magic: u32, daddr: u64, agno: u32, uuid: &[u8; 16], recs: &[u8], numrecs: u16, blocksize: usize) -> (b: Vec<u8>)
    requires
        off::RECS + recs@.len() <= blocksize,
    ensures
        b@ == leaf_block_spec(magic, daddr, agno, uuid@, recs@, numrecs, blocksize as nat),
        b@.len() == blocksize,
{
    let mut b: Vec<u8> = Vec::with_capacity(blocksize);
    push32(&mut b, magic);
    push16(&mut b, 0);
    push16(&mut b, numrecs);
    push32(&mut b, NULL32);
    push32(&mut b, NULL32);
    push64(&mut b, daddr);
    push64(&mut b, 0);
    push_bytes(&mut b, uuid);
    push32(&mut b, agno);
    push_zeros(&mut b, 4);
    push_bytes(&mut b, recs);
    push_zeros(&mut b, blocksize - off::RECS - recs.len());
    stamp(&mut b, off::CRC);
    b
}

/// Free space records, each start then length.
pub open spec fn alloc_recs_spec(recs: Seq<AllocRec>) -> Seq<u8>
    decreases recs.len(),
{
    if recs.len() == 0 {
        Seq::empty()
    } else {
        alloc_recs_spec(recs.drop_last()) + be32_bytes(recs.last().start) + be32_bytes(recs.last().count)
    }
}

/// Encode free space records.
pub fn alloc_recs(recs: &[AllocRec]) -> (out: Vec<u8>)
    ensures
        out@ == alloc_recs_spec(recs@),
{
    let mut out: Vec<u8> = Vec::new();
    let mut i: usize = 0;
    while i < recs.len()
        invariant
            i <= recs@.len(),
            out@ == alloc_recs_spec(recs@.subrange(0, i as int)),
        decreases recs@.len() - i,
    {
        push32(&mut out, recs[i].start);
        push32(&mut out, recs[i].count);
        i += 1;
        assert(recs@.subrange(0, i as int).drop_last() =~= recs@.subrange(0, i - 1));
    }
    assert(recs@.subrange(0, recs@.len() as int) =~= recs@);
    out
}

/// One inode btree record: the sparse format keeps holemask, count and
/// freecount where the full format has a 32-bit free count.
pub open spec fn inobt_rec_spec(r: InobtRec, sparse: bool) -> Seq<u8> {
    be32_bytes(r.startino) + (if sparse {
        be16_bytes(r.holemask) + seq![r.count, r.freecount]
    } else {
        be32_bytes(r.freecount as u32)
    }) + be64_bytes(r.free)
}

/// Inode btree records, one after another.
pub open spec fn inobt_recs_spec(recs: Seq<InobtRec>, sparse: bool) -> Seq<u8>
    decreases recs.len(),
{
    if recs.len() == 0 {
        Seq::empty()
    } else {
        inobt_recs_spec(recs.drop_last(), sparse) + inobt_rec_spec(recs.last(), sparse)
    }
}

/// Encode inode btree records. Without sparse inodes the free count is a
/// 32-bit field where the sparse format keeps holemask, count and freecount.
pub fn inobt_recs(recs: &[InobtRec], sparse: bool) -> (out: Vec<u8>)
    ensures
        out@ == inobt_recs_spec(recs@, sparse),
{
    let mut out: Vec<u8> = Vec::new();
    let mut i: usize = 0;
    while i < recs.len()
        invariant
            i <= recs@.len(),
            out@ == inobt_recs_spec(recs@.subrange(0, i as int), sparse),
        decreases recs@.len() - i,
    {
        let r = recs[i];
        let ghost before = out@;
        push32(&mut out, r.startino);
        if sparse {
            push16(&mut out, r.holemask);
            out.push(r.count);
            out.push(r.freecount);
        } else {
            push32(&mut out, r.freecount as u32);
        }
        push64(&mut out, r.free);
        assert(out@ =~= before + inobt_rec_spec(r, sparse));
        i += 1;
        assert(recs@.subrange(0, i as int).drop_last() =~= recs@.subrange(0, i - 1));
    }
    assert(recs@.subrange(0, recs@.len() as int) =~= recs@);
    out
}

/// Reverse mapping records: start, length, owner, and a zero offset.
pub open spec fn rmap_recs_spec(recs: Seq<RmapRec>) -> Seq<u8>
    decreases recs.len(),
{
    if recs.len() == 0 {
        Seq::empty()
    } else {
        rmap_recs_spec(recs.drop_last()) + be32_bytes(recs.last().start) + be32_bytes(recs.last().count)
            + be64_bytes(recs.last().owner) + be64_bytes(0)
    }
}

/// Encode reverse mapping records.
pub fn rmap_recs(recs: &[RmapRec]) -> (out: Vec<u8>)
    ensures
        out@ == rmap_recs_spec(recs@),
{
    let mut out: Vec<u8> = Vec::new();
    let mut i: usize = 0;
    while i < recs.len()
        invariant
            i <= recs@.len(),
            out@ == rmap_recs_spec(recs@.subrange(0, i as int)),
        decreases recs@.len() - i,
    {
        push32(&mut out, recs[i].start);
        push32(&mut out, recs[i].count);
        push64(&mut out, recs[i].owner);
        push64(&mut out, 0);
        i += 1;
        assert(recs@.subrange(0, i as int).drop_last() =~= recs@.subrange(0, i - 1));
    }
    assert(recs@.subrange(0, recs@.len() as int) =~= recs@);
    out
}

/// Encoded record lists are the record size times the count.
pub proof fn lemma_recs_len(a: Seq<AllocRec>, i: Seq<InobtRec>, sparse: bool, r: Seq<RmapRec>)
    ensures
        alloc_recs_spec(a).len() == ALLOC_REC * a.len(),
        inobt_recs_spec(i, sparse).len() == INOBT_REC * i.len(),
        rmap_recs_spec(r).len() == RMAP_REC * r.len(),
    decreases a.len() + i.len() + r.len(),
{
    if a.len() > 0 {
        lemma_recs_len(a.drop_last(), i, sparse, r);
    } else if i.len() > 0 {
        lemma_recs_len(a, i.drop_last(), sparse, r);
    } else if r.len() > 0 {
        lemma_recs_len(a, i, sparse, r.drop_last());
    }
}


/// Every btree block written carries a CRC that verifies.
pub proof fn lemma_leaf_block_verifies(magic: u32, daddr: u64, agno: u32, uuid: Seq<u8>, recs: Seq<u8>, numrecs: u16, blocksize: nat)
    requires
        uuid.len() == 16,
        off::RECS + recs.len() <= blocksize,
    ensures
        crate::crc::verifies(leaf_block_spec(magic, daddr, agno, uuid, recs, numrecs, blocksize), off::CRC as int),
{
    let buf = be32_bytes(magic) + be16_bytes(0) + be16_bytes(numrecs) + be32_bytes(NULL32) + be32_bytes(NULL32)
        + be64_bytes(daddr) + be64_bytes(0) + uuid + be32_bytes(agno) + zeros(4) + recs + zeros(
        (blocksize - off::RECS - recs.len()) as nat,
    );
    assert(buf.len() == blocksize);
    crate::crc::lemma_stamp_then_verify(buf, off::CRC as int);
}

} // verus!
