//! The superblock: `struct xfs_dsb`.
pub mod off;
pub mod version;

use vstd::prelude::*;
use crate::bytes::{be16_bytes, be32_bytes, be64_bytes, copy_into, push16, push32, push64, push_bytes, push_zeros, splice, zeros};
use crate::crc::{stamp, stamped};
use crate::geometry::{Geometry, GeometryView};

verus! {

/// `XFS_SB_MAGIC`, "XFSB".
pub const MAGIC: u32 = 0x5846_5342;

/// The fields that differ between the primary superblock and the
/// secondaries, and between the start and end of a format.
#[derive(Debug, Clone, Copy)]
pub struct SbState {
    /// Filesystem UUID.
    pub uuid: [u8; 16],
    /// Root directory inode, or `NULLFSINO`.
    pub rootino: u64,
    /// Realtime bitmap inode, or `NULLFSINO`.
    pub rbmino: u64,
    /// Realtime summary inode, or `NULLFSINO`.
    pub rsumino: u64,
    /// Allocated inodes.
    pub icount: u64,
    /// Free inodes.
    pub ifree: u64,
    /// Free data blocks.
    pub fdblocks: u64,
    /// `mkfs` has not finished.
    pub inprogress: bool,
}

/// Whether the filesystem records a sector size over 512 bytes.
pub open spec fn big_sectors(g: GeometryView) -> bool {
    g.sectsize > 512 || g.lsectsize > 512
}

/// `sb_versionnum`, as `sb_set_features` builds it.
pub open spec fn spec_versionnum(g: GeometryView) -> u16 {
    let v = version::V5 | version::NLINKBIT | version::EXTFLGBIT | version::DIRV2BIT
        | version::ALIGNBIT | version::LOGV2BIT;
    let v = if big_sectors(g) { v | version::SECTORBIT } else { v };
    v | version::MOREBITSBIT
}

/// `sb_features2` (and `sb_bad_features2`).
pub open spec fn spec_features2() -> u32 {
    version::F2_LAZYSBCOUNT | version::F2_PROJID32 | version::F2_CRC | version::F2_ATTR2
}

/// `sb_features_ro_compat`: one bit per btree feature.
pub open spec fn spec_ro_compat(g: GeometryView) -> u32 {
    let f = g.features;
    let r = 0u32;
    let r = if f.finobt { r | version::RO_FINOBT } else { r };
    let r = if f.rmapbt { r | version::RO_RMAPBT } else { r };
    let r = if f.reflink { r | version::RO_REFLINK } else { r };
    if f.inobtcount { r | version::RO_INOBTCNT } else { r }
}

/// `sb_features_incompat`: file types always, then the inode features.
pub open spec fn spec_incompat(g: GeometryView) -> u32 {
    let f = g.features;
    let r = version::IN_FTYPE;
    let r = if f.bigtime { r | version::IN_BIGTIME } else { r };
    let r = if f.sparse { r | version::IN_SPINODES } else { r };
    if f.nrext64 { r | version::IN_NREXT64 } else { r }
}

/// `sb_rextsize`: a 4 KiB realtime extent, and never under one block.
pub open spec fn spec_rextsize(g: GeometryView) -> u32 {
    if g.blocksize >= 4096 {
        1
    } else {
        4096u32 / g.blocksize
    }
}

/// Fields from `sb_magicnum` to `sb_logblocks` (bytes 0..100).
pub open spec fn sb_fields_a(g: GeometryView, s: SbState) -> Seq<u8> {
    be32_bytes(MAGIC) + be32_bytes(g.blocksize) + be64_bytes(g.dblocks) + be64_bytes(0)
        + be64_bytes(0) + s.uuid@ + be64_bytes(g.logstart_field()) + be64_bytes(s.rootino)
        + be64_bytes(s.rbmino) + be64_bytes(s.rsumino) + be32_bytes(spec_rextsize(g)) + be32_bytes(
        g.agsize as u32,
    ) + be32_bytes(g.agcount as u32) + be32_bytes(0) + be32_bytes(g.logblocks as u32)
}

/// Fields from `sb_versionnum` to `sb_imax_pct` (bytes 100..128).
pub open spec fn sb_fields_b(g: GeometryView, s: SbState) -> Seq<u8> {
    be16_bytes(spec_versionnum(g)) + be16_bytes(g.sectsize as u16) + be16_bytes(
        g.inodesize as u16,
    ) + be16_bytes(g.inopblock as u16) + g.label + seq![g.blocklog, g.sectlog, g.inodelog, g.inopblog]
        + seq![g.agblklog, 0u8, if s.inprogress { 1u8 } else { 0u8 }, g.imaxpct]
}

/// Fields from `sb_icount` to `sb_logsunit` (bytes 128..200).
pub open spec fn sb_fields_c(g: GeometryView, s: SbState) -> Seq<u8> {
    let big = big_sectors(g);
    be64_bytes(s.icount) + be64_bytes(s.ifree) + be64_bytes(s.fdblocks) + be64_bytes(0)
        + be64_bytes(0) + be64_bytes(0) + be16_bytes(0) + seq![0u8, 0u8] + be32_bytes(
        g.inoalignmt() as u32,
    ) + be32_bytes(0) + be32_bytes(0) + seq![
        (g.dirblocklog - g.blocklog) as u8,
        if big { g.lsectlog } else { 0u8 },
    ] + be16_bytes(if big { g.lsectsize as u16 } else { 0u16 }) + be32_bytes(g.logsunit())
}

/// Fields from `sb_features2` to `sb_meta_uuid` (bytes 200..264), the CRC
/// zero.
pub open spec fn sb_fields_d(g: GeometryView) -> Seq<u8> {
    be32_bytes(spec_features2()) + be32_bytes(spec_features2()) + be32_bytes(0) + be32_bytes(
        spec_ro_compat(g),
    ) + be32_bytes(spec_incompat(g)) + be32_bytes(0) + be32_bytes(0) + be32_bytes(
        g.spino_align() as u32,
    ) + be64_bytes(0) + be64_bytes(0) + zeros(16)
}

/// The superblock's fields, in on-disk order, up to [`off::END`], with the
/// CRC field zero.
#[verifier::opaque]
pub open spec fn sb_fields(g: GeometryView, s: SbState) -> Seq<u8> {
    sb_fields_a(g, s) + sb_fields_b(g, s) + sb_fields_c(g, s) + sb_fields_d(g)
}

/// The superblock sector: its fields, zero to the end of the sector, and the
/// CRC stamped.
pub open spec fn sb_sector(g: GeometryView, s: SbState) -> Seq<u8> {
    stamped(sb_fields(g, s) + zeros((g.sectsize - off::END) as nat), off::CRC as int)
}

/// `sb_versionnum`, as `sb_set_features` builds it.
pub fn versionnum(g: &Geometry) -> (r: u16)
    ensures
        r == spec_versionnum(g@),
{
    let mut v = version::V5 | version::NLINKBIT | version::EXTFLGBIT | version::DIRV2BIT;
    v = v | version::ALIGNBIT | version::LOGV2BIT;
    if g.sectsize > 512 || g.lsectsize > 512 {
        v = v | version::SECTORBIT;
    }
    // features2 is never empty on a v5 filesystem.
    v | version::MOREBITSBIT
}

/// `sb_features2` (and `sb_bad_features2`).
pub fn features2(_g: &Geometry) -> (r: u32)
    ensures
        r == spec_features2(),
{
    version::F2_LAZYSBCOUNT | version::F2_PROJID32 | version::F2_CRC | version::F2_ATTR2
}

/// `sb_features_ro_compat`.
pub fn ro_compat(g: &Geometry) -> (r: u32)
    ensures
        r == spec_ro_compat(g@),
{
    let f = g.features;
    let mut r: u32 = 0;
    if f.finobt {
        r = r | version::RO_FINOBT;
    }
    if f.rmapbt {
        r = r | version::RO_RMAPBT;
    }
    if f.reflink {
        r = r | version::RO_REFLINK;
    }
    if f.inobtcount {
        r = r | version::RO_INOBTCNT;
    }
    r
}

/// `sb_features_incompat`.
pub fn incompat(g: &Geometry) -> (r: u32)
    ensures
        r == spec_incompat(g@),
{
    let f = g.features;
    let mut r = version::IN_FTYPE;
    if f.bigtime {
        r = r | version::IN_BIGTIME;
    }
    if f.sparse {
        r = r | version::IN_SPINODES;
    }
    if f.nrext64 {
        r = r | version::IN_NREXT64;
    }
    r
}

/// `sb_rextsize` for `g`.
pub fn rextsize(g: &Geometry) -> (r: u32)
    requires
        g@.wf(),
    ensures
        r == spec_rextsize(g@),
{
    proof {
        crate::geometry::lemma_wf_sizes(g@);
    }
    if g.blocksize >= 4096 {
        1
    } else {
        4096 / g.blocksize
    }
}

#[verifier::spinoff_prover]
#[verifier::rlimit(40)]
fn push_fields_a(b: &mut Vec<u8>, g: &Geometry, s: &SbState)
    requires
        g@.wf(),
    ensures
        final(b)@ == old(b)@ + sb_fields_a(g@, *s),
{
    let ghost b0 = b@;
    push32(b, MAGIC);
    push32(b, g.blocksize);
    push64(b, g.dblocks);
    push64(b, 0);
    push64(b, 0);
    push_bytes(b, &s.uuid);
    push64(b, g.logstart());
    push64(b, s.rootino);
    push64(b, s.rbmino);
    push64(b, s.rsumino);
    push32(b, rextsize(g));
    push32(b, g.agsize as u32);
    push32(b, g.agcount as u32);
    push32(b, 0);
    push32(b, g.logblocks as u32);
    assert(b@ =~= b0 + sb_fields_a(g@, *s));
}

#[verifier::spinoff_prover]
#[verifier::rlimit(40)]
fn push_fields_b(b: &mut Vec<u8>, g: &Geometry, s: &SbState)
    ensures
        final(b)@ == old(b)@ + sb_fields_b(g@, *s),
{
    let ghost b0 = b@;
    push16(b, versionnum(g));
    push16(b, g.sectsize as u16);
    push16(b, g.inodesize as u16);
    push16(b, g.inopblock as u16);
    push_bytes(b, &g.label);
    b.push(g.blocklog);
    b.push(g.sectlog);
    b.push(g.inodelog);
    b.push(g.inopblog);
    b.push(g.agblklog);
    b.push(0);
    b.push(if s.inprogress { 1 } else { 0 });
    b.push(g.imaxpct);
    assert(b@ =~= b0 + sb_fields_b(g@, *s));
}

#[verifier::spinoff_prover]
#[verifier::rlimit(40)]
fn push_fields_c(b: &mut Vec<u8>, g: &Geometry, s: &SbState)
    requires
        g@.wf(),
    ensures
        final(b)@ == old(b)@ + sb_fields_c(g@, *s),
{
    let ghost b0 = b@;
    proof {
        crate::geometry::lemma_wf_sizes(g@);
    }
    let big = g.sectsize > 512 || g.lsectsize > 512;
    push64(b, s.icount);
    push64(b, s.ifree);
    push64(b, s.fdblocks);
    push64(b, 0);
    push64(b, 0);
    push64(b, 0);
    push16(b, 0);
    b.push(0);
    b.push(0);
    push32(b, g.inoalignmt() as u32);
    push32(b, 0);
    push32(b, 0);
    b.push(g.dirblocklog - g.blocklog);
    b.push(if big { g.lsectlog } else { 0 });
    push16(b, if big { g.lsectsize as u16 } else { 0 });
    // A v2 log with no stripe unit records 1, never 0.
    push32(b, g.logsunit());
    assert(b@ =~= b0 + sb_fields_c(g@, *s));
}

#[verifier::spinoff_prover]
#[verifier::rlimit(40)]
fn push_fields_d(b: &mut Vec<u8>, g: &Geometry)
    requires
        g@.wf(),
    ensures
        final(b)@ == old(b)@ + sb_fields_d(g@),
{
    let ghost b0 = b@;
    push32(b, features2(g));
    push32(b, features2(g));
    push32(b, 0);
    push32(b, ro_compat(g));
    push32(b, incompat(g));
    push32(b, 0);
    push32(b, 0);
    push32(b, g.spino_align());
    push64(b, 0);
    push64(b, 0);
    // sb_meta_uuid is written only with the META_UUID feature.
    push_zeros(b, 16);
    assert(b@ =~= b0 + sb_fields_d(g@));
}

/// The superblock's fields, built in order.
fn fields(g: &Geometry, s: &SbState) -> (b: Vec<u8>)
    requires
        g@.wf(),
    ensures
        b@ == sb_fields(g@, *s),
        b@.len() == off::END,
{
    let mut b: Vec<u8> = Vec::with_capacity(off::END);
    push_fields_a(&mut b, g, s);
    push_fields_b(&mut b, g, s);
    push_fields_c(&mut b, g, s);
    push_fields_d(&mut b, g);
    proof {
        reveal(sb_fields);
    }
    assert(b@ =~= sb_fields(g@, *s));
    b
}

/// Encode a superblock into `sector` (one sector, zeroed by the caller)
/// and stamp its CRC, as `xfs_sb_to_disk` and the write verifier do.
pub fn encode(g: &Geometry, s: &SbState, sector: &mut [u8])
    requires
        g@.wf(),
        old(sector)@.len() >= g.sectsize,
        forall|i: int| 0 <= i < old(sector)@.len() ==> old(sector)@[i] == 0u8,
    ensures
        final(sector)@ == splice(old(sector)@, 0, sb_sector(g@, *s)),
        sb_sector(g@, *s).len() == g.sectsize,
        final(sector)@.len() == old(sector)@.len(),
{
    let mut b = fields(g, s);
    proof {
        crate::geometry::lemma_wf_sizes(g@);
    }
    push_zeros(&mut b, g.sectsize as usize - off::END);
    stamp(&mut b, off::CRC);
    copy_into(sector, 0, &b);
}


/// A superblock sector is one sector long, its fields the first
/// [`off::END`] bytes of it.
pub proof fn lemma_sb_sector_len(g: GeometryView, s: SbState)
    requires
        g.label.len() == 12,
        off::END <= g.sectsize,
    ensures
        sb_fields(g, s).len() == off::END,
        sb_sector(g, s).len() == g.sectsize,
{
    assert(sb_fields_a(g, s).len() == 100);
    assert(sb_fields_b(g, s).len() == 28);
    assert(sb_fields_c(g, s).len() == 72);
    assert(sb_fields_d(g).len() == 64);
    assert(sb_fields(g, s).len() == off::END) by {
        reveal(sb_fields);
    }
    let buf = sb_fields(g, s) + zeros((g.sectsize - off::END) as nat);
    crate::crc::lemma_stamped_len(buf, off::CRC as int);
}


/// Every superblock written carries a CRC that verifies.
pub proof fn lemma_sb_sector_verifies(g: GeometryView, s: SbState)
    requires
        g.label.len() == 12,
        off::END <= g.sectsize,
    ensures
        crate::crc::verifies(sb_sector(g, s), off::CRC as int),
{
    lemma_sb_sector_len(g, s);
    crate::crc::lemma_stamp_then_verify(sb_fields(g, s) + zeros((g.sectsize - off::END) as nat), off::CRC as int);
}

} // verus!
