//! What the reader finds in a superblock the formatter wrote.
use vstd::prelude::*;
use crate::bytes::{be16_bytes, be32_bytes, be64_bytes, lemma_be16_roundtrip, lemma_be32_roundtrip, lemma_be64_roundtrip, spec_be16, spec_be32, spec_be64, splice, zeros};
use crate::crc::verifies;
use crate::format::apply::{apply_all, lemma_apply_len, within};
use crate::format::head::{lemma_head_prefix, spec_ag_head};
use crate::format::writes::{formattable, spec_fdblocks, edge_writes_spec, final_writes_spec, finished_state, planned, spec_writes, ag_writes, WriteView};
use crate::geometry::{power_of_two, GeometryView, Timestamp};
use crate::inspect::{geo_fields, geo_ok, has_sb_magic, is_v5, readable, sizes_ok, Geo, GEO_BYTES};
use crate::inspect::whole::{lemma_dump_starts_with_sb, spec_dump, spec_geometry};
use crate::inspect::render::{key, rows_fields};
use crate::inspect::tables::sb_rows;
use crate::inspect::walk::indexed;
use crate::inspect::FieldView;
use crate::text::{spec_bool_text, spec_dec};
use crate::structs::sb::{spec_rextsize, big_sectors, sb_fields, sb_fields_a, sb_fields_b, sb_fields_c, sb_fields_d, sb_sector, spec_incompat, spec_ro_compat, spec_versionnum, SbState, MAGIC};
use crate::structs::sb::off as sbo;
use vstd::arithmetic::power2::pow2;

verus! {

/// The geometry a superblock written for `g` records.
pub open spec fn written_geo(g: GeometryView) -> Geo {
    Geo {
        blocksize: g.blocksize as u64,
        blocklog: g.blocklog as u32,
        sectsize: g.sectsize as u64,
        agblocks: g.agsize,
        agcount: g.agcount,
        dblocks: g.dblocks,
        agblklog: g.agblklog as u32,
        inodesize: g.inodesize as u64,
        inopblog: g.inopblog as u32,
        logstart: g.logstart_field(),
        logblocks: g.logblocks,
        logsectsize: if big_sectors(g) { g.lsectsize as u64 } else { 0 },
        ro_compat: spec_ro_compat(g),
        incompat: spec_incompat(g),
    }
}

#[verifier::spinoff_prover]
#[verifier::rlimit(40)]
proof fn lemma_pow2_power_of_two(n: nat)
    ensures
        power_of_two(pow2(n) as int),
    decreases n,
{
    vstd::arithmetic::power2::lemma_pow2_pos(n);
    if n > 0 {
        lemma_pow2_power_of_two((n - 1) as nat);
        vstd::arithmetic::power2::lemma_pow2_unfold(n);
        vstd::arithmetic::power2::lemma_pow2_pos((n - 1) as nat);
        assert((2 * pow2((n - 1) as nat)) / 2 == pow2((n - 1) as nat));
    } else {
        vstd::arithmetic::power2::lemma2_to64();
    }
}

/// The big-endian `u32` of `be32_bytes(v)`, wherever it lies in `f`.
#[verifier::spinoff_prover]
#[verifier::rlimit(40)]
proof fn lemma_read32(f: Seq<u8>, off: int, v: u32)
    requires
        0 <= off,
        off + 4 <= f.len(),
        f.subrange(off, off + 4) == be32_bytes(v),
    ensures
        spec_be32(f, off) == v,
{
    assert(f[off] == f.subrange(off, off + 4)[0]);
    assert(f[off + 1] == f.subrange(off, off + 4)[1]);
    assert(f[off + 2] == f.subrange(off, off + 4)[2]);
    assert(f[off + 3] == f.subrange(off, off + 4)[3]);
    lemma_be32_roundtrip(v);
}

#[verifier::spinoff_prover]
#[verifier::rlimit(40)]
proof fn lemma_read16(f: Seq<u8>, off: int, v: u16)
    requires
        0 <= off,
        off + 2 <= f.len(),
        f.subrange(off, off + 2) == be16_bytes(v),
    ensures
        spec_be16(f, off) == v,
{
    assert(f[off] == f.subrange(off, off + 2)[0]);
    assert(f[off + 1] == f.subrange(off, off + 2)[1]);
    lemma_be16_roundtrip(v);
}

#[verifier::spinoff_prover]
#[verifier::rlimit(40)]
proof fn lemma_read64(f: Seq<u8>, off: int, v: u64)
    requires
        0 <= off,
        off + 8 <= f.len(),
        f.subrange(off, off + 8) == be64_bytes(v),
    ensures
        spec_be64(f, off) == v,
{
    assert(f.subrange(off, off + 4) =~= f.subrange(off, off + 8).subrange(0, 4));
    assert(f.subrange(off + 4, off + 8) =~= f.subrange(off, off + 8).subrange(4, 8));
    assert(be64_bytes(v).subrange(0, 4) =~= be32_bytes((v >> 32u64) as u32));
    assert(be64_bytes(v).subrange(4, 8) =~= be32_bytes(v as u32));
    lemma_read32(f, off, (v >> 32u64) as u32);
    lemma_read32(f, off + 4, v as u32);
    lemma_be64_roundtrip(v);
}

/// The geometry fields among the first hundred bytes.
#[verifier::spinoff_prover]
#[verifier::rlimit(40)]
proof fn lemma_part_a(g: GeometryView, s: SbState)
    ensures
        sb_fields_a(g, s).len() == 100,
        spec_be32(sb_fields_a(g, s), sbo::MAGICNUM as int) == MAGIC,
        spec_be32(sb_fields_a(g, s), sbo::BLOCKSIZE as int) == g.blocksize,
        spec_be64(sb_fields_a(g, s), sbo::DBLOCKS as int) == g.dblocks,
        spec_be64(sb_fields_a(g, s), sbo::LOGSTART as int) == g.logstart_field(),
        spec_be32(sb_fields_a(g, s), sbo::AGBLOCKS as int) == g.agsize as u32,
        spec_be32(sb_fields_a(g, s), sbo::AGCOUNT as int) == g.agcount as u32,
        spec_be32(sb_fields_a(g, s), sbo::LOGBLOCKS as int) == g.logblocks as u32,
{
    let f = sb_fields_a(g, s);
    assert(f.subrange(0, 4) =~= be32_bytes(MAGIC));
    assert(f.subrange(4, 8) =~= be32_bytes(g.blocksize));
    assert(f.subrange(8, 16) =~= be64_bytes(g.dblocks));
    assert(f.subrange(48, 56) =~= be64_bytes(g.logstart_field()));
    assert(f.subrange(84, 88) =~= be32_bytes(g.agsize as u32));
    assert(f.subrange(88, 92) =~= be32_bytes(g.agcount as u32));
    assert(f.subrange(96, 100) =~= be32_bytes(g.logblocks as u32));
    lemma_read32(f, 0, MAGIC);
    lemma_read32(f, 4, g.blocksize);
    lemma_read64(f, 8, g.dblocks);
    lemma_read64(f, 48, g.logstart_field());
    lemma_read32(f, 84, g.agsize as u32);
    lemma_read32(f, 88, g.agcount as u32);
    lemma_read32(f, 96, g.logblocks as u32);
}

/// The geometry fields from byte 100 to byte 128.
#[verifier::spinoff_prover]
#[verifier::rlimit(40)]
proof fn lemma_part_b(g: GeometryView, s: SbState)
    requires
        g.label.len() == 12,
    ensures
        sb_fields_b(g, s).len() == 28,
        spec_be16(sb_fields_b(g, s), 0) == spec_versionnum(g),
        spec_be16(sb_fields_b(g, s), 2) == g.sectsize as u16,
        spec_be16(sb_fields_b(g, s), 4) == g.inodesize as u16,
        sb_fields_b(g, s)[20] == g.blocklog,
        sb_fields_b(g, s)[23] == g.inopblog,
        sb_fields_b(g, s)[24] == g.agblklog,
        sb_fields_b(g, s)[26] == (if s.inprogress { 1u8 } else { 0u8 }),
{
    let f = sb_fields_b(g, s);
    assert(f.subrange(0, 2) =~= be16_bytes(spec_versionnum(g)));
    assert(f.subrange(2, 4) =~= be16_bytes(g.sectsize as u16));
    assert(f.subrange(4, 6) =~= be16_bytes(g.inodesize as u16));
    lemma_read16(f, 0, spec_versionnum(g));
    lemma_read16(f, 2, g.sectsize as u16);
    lemma_read16(f, 4, g.inodesize as u16);
}

/// The log sector size, at byte 194.
#[verifier::spinoff_prover]
#[verifier::rlimit(40)]
proof fn lemma_part_c(g: GeometryView, s: SbState)
    ensures
        sb_fields_c(g, s).len() == 72,
        spec_be16(sb_fields_c(g, s), 66) == (if big_sectors(g) { g.lsectsize as u16 } else { 0u16 }),
{
    let f = sb_fields_c(g, s);
    let v: u16 = if big_sectors(g) { g.lsectsize as u16 } else { 0u16 };
    assert(f.subrange(66, 68) =~= be16_bytes(v));
    lemma_read16(f, 66, v);
}

/// The feature words, at bytes 212 and 216.
#[verifier::spinoff_prover]
#[verifier::rlimit(40)]
proof fn lemma_part_d(g: GeometryView)
    ensures
        sb_fields_d(g).len() == 64,
        spec_be32(sb_fields_d(g), 12) == spec_ro_compat(g),
        spec_be32(sb_fields_d(g), 16) == spec_incompat(g),
{
    let f = sb_fields_d(g);
    assert(f.subrange(12, 16) =~= be32_bytes(spec_ro_compat(g)));
    assert(f.subrange(16, 20) =~= be32_bytes(spec_incompat(g)));
    lemma_read32(f, 12, spec_ro_compat(g));
    lemma_read32(f, 16, spec_incompat(g));
}

/// The superblock sector agrees with its fields before the CRC.
#[verifier::spinoff_prover]
#[verifier::rlimit(40)]
proof fn lemma_sector_prefix(g: GeometryView, s: SbState)
    requires
        g.label.len() == 12,
        sbo::END <= g.sectsize,
    ensures
        sb_fields(g, s).len() == sbo::END,
        sb_sector(g, s).len() == g.sectsize,
        forall|i: int| 0 <= i < sbo::CRC ==> #[trigger] sb_sector(g, s)[i] == sb_fields(g, s)[i],
{
    lemma_fields_parts(g, s);
    let f = sb_fields(g, s);
    let buf = f + zeros((g.sectsize - sbo::END) as nat);
    crate::crc::lemma_stamped_len(buf, sbo::CRC as int);
    assert forall|i: int| 0 <= i < sbo::CRC implies #[trigger] sb_sector(g, s)[i] == f[i] by {
        assert(buf[i] == f[i]);
    }
}

/// The fields sit at their offsets among the four parts.
#[verifier::spinoff_prover]
#[verifier::rlimit(40)]
proof fn lemma_fields_parts(g: GeometryView, s: SbState)
    requires
        g.label.len() == 12,
    ensures
        forall|i: int| 0 <= i < 100 ==> #[trigger] sb_fields(g, s)[i] == sb_fields_a(g, s)[i],
        forall|i: int| 100 <= i < 128 ==> #[trigger] sb_fields(g, s)[i] == sb_fields_b(g, s)[i - 100],
        forall|i: int| 128 <= i < 200 ==> #[trigger] sb_fields(g, s)[i] == sb_fields_c(g, s)[i - 128],
        forall|i: int| 200 <= i < 264 ==> #[trigger] sb_fields(g, s)[i] == sb_fields_d(g)[i - 200],
        sb_fields(g, s).len() == 264,
{
    reveal(sb_fields);
    lemma_part_a(g, s);
    lemma_part_b(g, s);
    lemma_part_c(g, s);
    lemma_part_d(g);
}

/// Reading the superblock sector of `g` gives back, field by field, the
/// geometry it was written for.
#[verifier::spinoff_prover]
#[verifier::rlimit(60)]
proof fn lemma_sector_fields(g: GeometryView, s: SbState)
    requires
        g.label.len() == 12,
        sbo::END <= g.sectsize <= u16::MAX,
        g.lsectsize <= u16::MAX,
        g.inodesize <= u16::MAX,
        g.agsize <= u32::MAX,
        g.agcount <= u32::MAX,
        g.logblocks <= u32::MAX,
    ensures
        sb_sector(g, s).len() == g.sectsize,
        geo_fields(sb_sector(g, s)) == written_geo(g),
        has_sb_magic(sb_sector(g, s)),
        spec_be16(sb_sector(g, s), sbo::VERSIONNUM as int) == spec_versionnum(g),
        sb_sector(g, s)[sbo::INPROGRESS as int] == (if s.inprogress { 1u8 } else { 0u8 }),
{
    lemma_sector_prefix(g, s);
    lemma_fields_parts(g, s);
    lemma_part_a(g, s);
    lemma_part_b(g, s);
    lemma_part_c(g, s);
    lemma_part_d(g);
    let a = sb_fields_a(g, s);
    let b = sb_fields_b(g, s);
    let c = sb_fields_c(g, s);
    let d = sb_fields_d(g);
    let f = sb_fields(g, s);
    let sec = sb_sector(g, s);
    assert(spec_be32(sec, 0) == spec_be32(a, 0));
    assert(spec_be32(sec, 4) == spec_be32(a, 4));
    assert(spec_be32(sec, 8) == spec_be32(a, 8) && spec_be32(sec, 12) == spec_be32(a, 12));
    assert(spec_be32(sec, 48) == spec_be32(a, 48) && spec_be32(sec, 52) == spec_be32(a, 52));
    assert(spec_be32(sec, 84) == spec_be32(a, 84));
    assert(spec_be32(sec, 88) == spec_be32(a, 88));
    assert(spec_be32(sec, 96) == spec_be32(a, 96));
    assert(spec_be16(sec, 100) == spec_be16(b, 0));
    assert(spec_be16(sec, 102) == spec_be16(b, 2));
    assert(spec_be16(sec, 104) == spec_be16(b, 4));
    assert(sec[120] == b[20] && sec[123] == b[23] && sec[124] == b[24] && sec[126] == b[26]);
    assert(spec_be16(sec, 194) == spec_be16(c, 66));
    assert(spec_be32(sec, 212) == spec_be32(d, 12));
    assert(spec_be32(sec, 216) == spec_be32(d, 16));
    assert(geo_fields(sec) == written_geo(g));
}

/// The root inode, the realtime extent size and the free block count at
/// bytes 56, 80 and 144.
#[verifier::spinoff_prover]
#[verifier::rlimit(40)]
proof fn lemma_part_state(g: GeometryView, s: SbState)
    ensures
        spec_be64(sb_fields_a(g, s), sbo::ROOTINO as int) == s.rootino,
        spec_be32(sb_fields_a(g, s), sbo::REXTSIZE as int) == spec_rextsize(g),
        spec_be64(sb_fields_c(g, s), 16) == s.fdblocks,
        spec_be64(sb_fields_c(g, s), 0) == s.icount,
        spec_be64(sb_fields_c(g, s), 8) == s.ifree,
{
    let a = sb_fields_a(g, s);
    let c = sb_fields_c(g, s);
    assert(a.subrange(56, 64) =~= be64_bytes(s.rootino));
    assert(a.subrange(80, 84) =~= be32_bytes(spec_rextsize(g)));
    assert(c.subrange(16, 24) =~= be64_bytes(s.fdblocks));
    lemma_read64(a, 56, s.rootino);
    lemma_read32(a, 80, spec_rextsize(g));
    lemma_read64(c, 16, s.fdblocks);
    assert(c.subrange(0, 8) =~= be64_bytes(s.icount));
    assert(c.subrange(8, 16) =~= be64_bytes(s.ifree));
    lemma_read64(c, 0, s.icount);
    lemma_read64(c, 8, s.ifree);
}

/// The superblock sector records the state it was written with: its root
/// inode, its free block count, and a 4 KiB realtime extent.
#[verifier::spinoff_prover]
#[verifier::rlimit(40)]
proof fn lemma_sector_state(g: GeometryView, s: SbState)
    requires
        g.label.len() == 12,
        sbo::END <= g.sectsize,
    ensures
        spec_be64(sb_sector(g, s), sbo::ROOTINO as int) == s.rootino,
        spec_be32(sb_sector(g, s), sbo::REXTSIZE as int) == spec_rextsize(g),
        spec_be64(sb_sector(g, s), sbo::FDBLOCKS as int) == s.fdblocks,
        spec_be64(sb_sector(g, s), sbo::ICOUNT as int) == s.icount,
        spec_be64(sb_sector(g, s), sbo::IFREE as int) == s.ifree,
{
    lemma_sector_prefix(g, s);
    lemma_fields_parts(g, s);
    lemma_part_a(g, s);
    lemma_part_c(g, s);
    lemma_part_state(g, s);
    let a = sb_fields_a(g, s);
    let c = sb_fields_c(g, s);
    let sec = sb_sector(g, s);
    assert(spec_be32(sec, 56) == spec_be32(a, 56) && spec_be32(sec, 60) == spec_be32(a, 60));
    assert(spec_be32(sec, 80) == spec_be32(a, 80));
    assert(spec_be32(sec, 144) == spec_be32(c, 16) && spec_be32(sec, 148) == spec_be32(c, 20));
    assert(spec_be32(sec, 128) == spec_be32(c, 0) && spec_be32(sec, 132) == spec_be32(c, 4));
    assert(spec_be32(sec, 136) == spec_be32(c, 8) && spec_be32(sec, 140) == spec_be32(c, 12));
}

/// A geometry [`crate::geometry::Geometry::compute`] can return is one the
/// reader trusts.
#[verifier::spinoff_prover]
#[verifier::rlimit(40)]
proof fn lemma_written_ok(g: GeometryView)
    requires
        g.wf(),
    ensures
        geo_ok(written_geo(g)),
{
    crate::geometry::lemma_wf_sizes(g);
    lemma_pow2_power_of_two(g.blocklog as nat);
    lemma_pow2_power_of_two(g.sectlog as nat);
    lemma_pow2_power_of_two(g.inodelog as nat);
    let w = written_geo(g);
    assert(sizes_ok(w));
}

/// A superblock the formatter writes reads back as the geometry it was
/// written for: whatever else a device holds, one whose first bytes are
/// that superblock's is a version 5 XFS filesystem of that geometry, and
/// the reader trusts it.
#[verifier::spinoff_prover]
#[verifier::rlimit(40)]
pub proof fn lemma_sb_reads_back(g: GeometryView, s: SbState, c: Seq<u8>)
    requires
        g.wf(),
        GEO_BYTES <= c.len(),
        c.subrange(0, GEO_BYTES as int) == sb_sector(g, s).subrange(0, GEO_BYTES as int),
    ensures
        spec_geometry(c) == Ok::<Geo, crate::inspect::walk::Fail>(written_geo(g)),
{
    crate::geometry::lemma_wf_sizes(g);
    lemma_sector_fields(g, s);
    lemma_written_ok(g);
    let sec = sb_sector(g, s);
    assert forall|i: int| 0 <= i < GEO_BYTES implies #[trigger] c[i] == sec[i] by {
        assert(c[i] == c.subrange(0, GEO_BYTES as int)[i]);
        assert(sec[i] == sec.subrange(0, GEO_BYTES as int)[i]);
    }
    assert(geo_fields(c) == geo_fields(sec));
    assert(has_sb_magic(c));
    let v = spec_versionnum(g);
    let big = big_sectors(g);
    assert(v & 0xf == 5) by (bit_vector)
        requires
            v == (if big {
                (5u16 | 0x20u16 | 0x1000u16 | 0x2000u16 | 0x80u16 | 0x400u16) | 0x800u16
            } else {
                5u16 | 0x20u16 | 0x1000u16 | 0x2000u16 | 0x80u16 | 0x400u16
            }) | 0x8000u16,
    ;
    assert(is_v5(c));
}


/// A format, laid onto any device that holds its writes, reads back as a
/// version 5 XFS filesystem of the geometry it was formatted with, no
/// longer marked in progress, with the root inode and free block count the
/// format reports, the root chunk's 64 inodes counted with 61 free, a 4 KiB realtime extent, and a primary superblock whose
/// CRC verifies: the last write to reach the primary superblock is the
/// finished one.
#[verifier::spinoff_prover]
#[verifier::rlimit(40)]
pub proof fn lemma_format_reads_back(
    g: GeometryView,
    dev_size: u64,
    uuid: [u8; 16],
    time: Timestamp,
    seed: u64,
    s0: Seq<u8>,
)
    requires
        g.wf(),
        s0.len() == dev_size,
        forall|i: int|
            0 <= i < spec_writes(g, dev_size, uuid, time, seed).len() ==> within(
                s0.len(),
                #[trigger] spec_writes(g, dev_size, uuid, time, seed)[i],
            ),
    ensures
        spec_geometry(apply_all(s0, spec_writes(g, dev_size, uuid, time, seed)))
            == Ok::<Geo, crate::inspect::walk::Fail>(written_geo(g)),
        apply_all(s0, spec_writes(g, dev_size, uuid, time, seed))[sbo::INPROGRESS as int] == 0,
        spec_be64(apply_all(s0, spec_writes(g, dev_size, uuid, time, seed)), sbo::ROOTINO as int)
            == g.rootino() as u64,
        spec_be64(apply_all(s0, spec_writes(g, dev_size, uuid, time, seed)), sbo::FDBLOCKS as int)
            == spec_fdblocks(g) as u64,
        spec_be32(apply_all(s0, spec_writes(g, dev_size, uuid, time, seed)), sbo::REXTSIZE as int)
            == spec_rextsize(g),
        spec_be64(apply_all(s0, spec_writes(g, dev_size, uuid, time, seed)), sbo::ICOUNT as int) == 64,
        spec_be64(apply_all(s0, spec_writes(g, dev_size, uuid, time, seed)), sbo::IFREE as int) == 61,
        verifies(
            apply_all(s0, spec_writes(g, dev_size, uuid, time, seed)).subrange(0, g.sectsize as int),
            sbo::CRC as int,
        ),
{
    crate::geometry::lemma_wf_sizes(g);
    let w = spec_writes(g, dev_size, uuid, time, seed);
    let n = w.len();
    let fin = final_writes_spec(g, uuid, time, seed);
    assert(w == edge_writes_spec(g, dev_size, uuid) + ag_writes(g, uuid, g.agcount as nat) + fin);
    assert(fin.len() == 4);
    let w1 = w.drop_last();
    let w2 = w1.drop_last();
    assert(w.last() == fin[3]);
    assert(w1.last() == fin[2]);
    let st = finished_state(g, uuid);
    let head = spec_ag_head(g, planned(g, 0), uuid@, st);
    let hb = g.header_blocks() * g.blocksize;
    let h = head.subrange(0, hb);
    assert(fin[2] == WriteView::Data { offset: 0, bytes: h });
    assert(apply_all(s0, w) == apply_all(s0, w1));
    assert forall|i: int| 0 <= i < w2.len() implies within(s0.len(), #[trigger] w2[i]) by {
        assert(w2[i] == w[i]);
    }
    lemma_apply_len(s0, w2);
    let x = apply_all(s0, w2);
    assert(within(s0.len(), w[n - 2]));
    lemma_head_prefix(g, planned(g, 0), uuid@, st);
    assert(h.len() == hb);
    let r = apply_all(s0, w1);
    assert(r == splice(x, 0, h));
    let sec = sb_sector(g, st);
    lemma_sector_fields(g, st);
    assert forall|i: int| 0 <= i < g.sectsize implies #[trigger] r[i] == sec[i] by {
        assert(r[i] == h[i]);
        assert(h[i] == head[i]);
    }
    assert(r.subrange(0, GEO_BYTES as int) =~= sec.subrange(0, GEO_BYTES as int));
    assert(r.subrange(0, g.sectsize as int) =~= sec);
    lemma_sb_reads_back(g, st, r);
    assert(r[sbo::INPROGRESS as int] == sec[sbo::INPROGRESS as int]);
    lemma_sector_state(g, st);
    assert(spec_be32(r, 56) == spec_be32(sec, 56) && spec_be32(r, 60) == spec_be32(sec, 60));
    assert(spec_be32(r, 80) == spec_be32(sec, 80));
    assert(spec_be32(r, 144) == spec_be32(sec, 144) && spec_be32(r, 148) == spec_be32(sec, 148));
    assert(spec_be32(r, 128) == spec_be32(sec, 128) && spec_be32(r, 132) == spec_be32(sec, 132));
    assert(spec_be32(r, 136) == spec_be32(sec, 136) && spec_be32(r, 140) == spec_be32(sec, 140));
    crate::structs::sb::lemma_sb_sector_verifies(g, st);
}


/// The fields `f` hold `ag[0].sb.name` with the value `v`.
pub open spec fn primary_field(f: Seq<FieldView>, name: Seq<char>, v: Seq<char>) -> bool {
    exists|i: int| 0 <= i < f.len() && #[trigger] f[i].0 == key(key(indexed("ag"@, 0), "sb"@), name) && f[i].1 == v
}

/// A dump of a formatted device, where it reads through, shows the
/// primary superblock as the format left it: the AG count, the root inode
/// and the free block count the format reports, no longer in progress, a
/// 4 KiB realtime extent, and a CRC that verifies.
#[verifier::spinoff_prover]
#[verifier::rlimit(40)]
pub proof fn lemma_format_dumps_back(
    g: GeometryView,
    dev_size: u64,
    uuid: [u8; 16],
    time: Timestamp,
    seed: u64,
    s0: Seq<u8>,
)
    requires
        g.wf(),
        s0.len() == dev_size,
        forall|i: int|
            0 <= i < spec_writes(g, dev_size, uuid, time, seed).len() ==> within(
                s0.len(),
                #[trigger] spec_writes(g, dev_size, uuid, time, seed)[i],
            ),
    ensures
        spec_dump(apply_all(s0, spec_writes(g, dev_size, uuid, time, seed))) matches Ok(f) ==> {
            &&& primary_field(f, "agcount"@, spec_dec(g.agcount as nat))
            &&& primary_field(f, "rootino"@, spec_dec(g.rootino() as u64 as nat))
            &&& primary_field(f, "fdblocks"@, spec_dec(spec_fdblocks(g) as u64 as nat))
            &&& primary_field(f, "inprogress"@, spec_dec(0))
            &&& primary_field(f, "rextsize"@, spec_dec(spec_rextsize(g) as nat))
            &&& primary_field(f, "crc_ok"@, spec_bool_text(true))
        },
{
    let c = apply_all(s0, spec_writes(g, dev_size, uuid, time, seed));
    if spec_dump(c) is Ok {
        lemma_format_reads_back(g, dev_size, uuid, time, seed, s0);
        lemma_dump_starts_with_sb(c);
        let f = spec_dump(c)->Ok_0;
        let ss = g.sectsize as int;
        let b = c.subrange(0, ss);
        let p = key(indexed("ag"@, 0), "sb"@);
        let rows = sb_rows(ss as usize);
        let rf = rows_fields(p, b, rows);
        assert(rf.len() == 57);
        assert(forall|i: int| 0 <= i < 57 ==> f[i] == rf[i]);
        assert(spec_be32(b, 56) == spec_be32(c, 56) && spec_be32(b, 60) == spec_be32(c, 60));
        assert(spec_be32(b, 80) == spec_be32(c, 80));
        assert(spec_be32(b, 88) == spec_be32(c, 88));
        assert(b[126] == c[126]);
        assert(spec_be32(b, 144) == spec_be32(c, 144) && spec_be32(b, 148) == spec_be32(c, 148));
        assert(geo_fields(c).agcount == g.agcount);
        assert(f[7] == rf[7]);
        assert(f[10] == rf[10]);
        assert(f[12] == rf[12]);
        assert(f[26] == rf[26]);
        assert(f[30] == rf[30]);
        assert(f[56] == rf[56]);
        assert(spec_be64(b, 56) == g.rootino() as u64);
        assert(spec_be64(b, 144) == spec_fdblocks(g) as u64);
        assert(spec_be32(b, 80) == spec_rextsize(g));
        assert(b =~= c.subrange(0, g.sectsize as int));
        assert(f[7].0 == key(p, "rootino"@) && f[7].1 == spec_dec(g.rootino() as u64 as nat));
        assert(primary_field(f, "rootino"@, spec_dec(g.rootino() as u64 as nat)));
        assert(f[10].0 == key(p, "rextsize"@) && f[10].1 == spec_dec(spec_rextsize(g) as nat));
        assert(primary_field(f, "rextsize"@, spec_dec(spec_rextsize(g) as nat)));
        assert(f[12].0 == key(p, "agcount"@) && f[12].1 == spec_dec(g.agcount as nat));
        assert(primary_field(f, "agcount"@, spec_dec(g.agcount as nat)));
        assert(f[26].0 == key(p, "inprogress"@) && f[26].1 == spec_dec(0));
        assert(primary_field(f, "inprogress"@, spec_dec(0)));
        assert(f[30].0 == key(p, "fdblocks"@) && f[30].1 == spec_dec(spec_fdblocks(g) as u64 as nat));
        assert(primary_field(f, "fdblocks"@, spec_dec(spec_fdblocks(g) as u64 as nat)));
        assert(f[56].0 == key(p, "crc_ok"@) && f[56].1 == spec_bool_text(true));
        assert(primary_field(f, "crc_ok"@, spec_bool_text(true)));
    }
}


/// The geometry a format writes is one the reader can place: its AGs, its
/// inodes and its log all lie where 64-bit arithmetic reaches them, so a
/// dump of a formatted device never stops at the superblock.
#[verifier::spinoff_prover]
#[verifier::rlimit(40)]
pub proof fn lemma_written_readable(g: GeometryView)
    requires
        g.wf(),
        formattable(g),
    ensures
        readable(written_geo(g)),
{
    crate::geometry::lemma_wf_sizes(g);
    let w = written_geo(g);
    vstd::arithmetic::power2::lemma_pow2_adds(g.inodelog as nat, g.inopblog as nat);
    assert(g.inodelog + g.inopblog == g.blocklog);
    assert(w.inodesize * pow2(w.inopblog as nat) == w.blocksize);
    assert((g.agcount - 1) * g.agsize <= g.dblocks);
    let k = g.agblklog as u64;
    let a = g.logagno;
    let b = g.log_agbno;
    assert(g.logagno < g.agcount) by {
        assert(g.logagno == g.agcount / 2);
    }
    vstd::bits::lemma_u64_pow2_no_overflow(k as nat);
    vstd::bits::lemma_u64_shl_is_mul(1, k);
    assert(b < (1u64 << k));
    assert(((a << k) | b) >> k == a && ((a << k) | b) & (((1u64 << k) - 1) as u64) == b) by (bit_vector)
        requires
            k < 32,
            a < 0x1_0000_0000u64,
            b < (1u64 << k),
    ;
    assert(w.logstart == (a << k) | b);
    assert(a * g.agsize + b <= 0x1_0000_0000u64 * 0x4000_0000u64) by (nonlinear_arith)
        requires
            a < 0x1_0000_0000u64,
            g.agsize < 0x4000_0000,
            b <= 11,
    ;
}


#[verifier::spinoff_prover]
#[verifier::rlimit(40)]
proof fn lemma_feature_bits(a: bool, b: bool, c: bool, d: bool)
    ensures
        ({
            let r1 = if a { 0u32 | 1u32 } else { 0u32 };
            let r2 = if b { r1 | 2u32 } else { r1 };
            let r3 = if c { r2 | 4u32 } else { r2 };
            let r4 = if d { r3 | 8u32 } else { r3 };
            &&& (r4 & 1u32 != 0) == a
            &&& (r4 & 2u32 != 0) == b
            &&& (r4 & 4u32 != 0) == c
            &&& (r4 & 8u32 != 0) == d
            &&& r4 < 16
        }),
        ({
            let r1 = if b { 1u32 | 8u32 } else { 1u32 };
            let r2 = if c { r1 | 2u32 } else { r1 };
            let r3 = if d { r2 | 0x20u32 } else { r2 };
            &&& (r3 & 1u32 != 0)
            &&& (r3 & 8u32 != 0) == b
            &&& (r3 & 2u32 != 0) == c
            &&& (r3 & 0x20u32 != 0) == d
            &&& r3 & 0xffff_ffd4u32 == 0
        }),
{
    assert({
        let r1 = if a { 0u32 | 1u32 } else { 0u32 };
        let r2 = if b { r1 | 2u32 } else { r1 };
        let r3 = if c { r2 | 4u32 } else { r2 };
        let r4 = if d { r3 | 8u32 } else { r3 };
        &&& (r4 & 1u32 != 0) == a
        &&& (r4 & 2u32 != 0) == b
        &&& (r4 & 4u32 != 0) == c
        &&& (r4 & 8u32 != 0) == d
        &&& r4 < 16
    }) by (bit_vector);
    assert({
        let r1 = if b { 1u32 | 8u32 } else { 1u32 };
        let r2 = if c { r1 | 2u32 } else { r1 };
        let r3 = if d { r2 | 0x20u32 } else { r2 };
        &&& (r3 & 1u32 != 0)
        &&& (r3 & 8u32 != 0) == b
        &&& (r3 & 2u32 != 0) == c
        &&& (r3 & 0x20u32 != 0) == d
        &&& r3 & 0xffff_ffd4u32 == 0
    }) by (bit_vector);
}

/// The superblock declares exactly the features the geometry has: in
/// `features_ro_compat`, one bit per btree feature (finobt, rmapbt,
/// reflink, inobtcount) and nothing else; in `features_incompat`, file
/// types always, then bigtime, sparse inodes and 64-bit extent counters,
/// each if and only if the geometry has it.
#[verifier::spinoff_prover]
#[verifier::rlimit(40)]
pub proof fn lemma_sb_declares_features(g: GeometryView, s: SbState)
    requires
        g.wf(),
    ensures
        ({
            let ro = spec_be32(sb_sector(g, s), sbo::FEATURES_RO_COMPAT as int);
            &&& (ro & 1u32 != 0) == g.features.finobt
            &&& (ro & 2u32 != 0) == g.features.rmapbt
            &&& (ro & 4u32 != 0) == g.features.reflink
            &&& (ro & 8u32 != 0) == g.features.inobtcount
            &&& ro < 16
        }),
        ({
            let inc = spec_be32(sb_sector(g, s), sbo::FEATURES_INCOMPAT as int);
            &&& (inc & 1u32 != 0)
            &&& (inc & 8u32 != 0) == g.features.bigtime
            &&& (inc & 2u32 != 0) == g.features.sparse
            &&& (inc & 0x20u32 != 0) == g.features.nrext64
            &&& inc & 0xffff_ffd4u32 == 0
        }),
{
    crate::geometry::lemma_wf_sizes(g);
    lemma_sector_fields(g, s);
    let f = g.features;
    lemma_feature_bits(f.finobt, f.rmapbt, f.reflink, f.inobtcount);
    lemma_feature_bits(f.finobt, f.bigtime, f.sparse, f.nrext64);
    assert(spec_be32(sb_sector(g, s), sbo::FEATURES_RO_COMPAT as int) == spec_ro_compat(g));
    assert(spec_be32(sb_sector(g, s), sbo::FEATURES_INCOMPAT as int) == spec_incompat(g));
}


/// The sizes and logs from byte 100 to byte 128, and the directory block
/// log and log stripe unit at bytes 192 and 196.
#[verifier::spinoff_prover]
#[verifier::rlimit(40)]
proof fn lemma_part_sizes(g: GeometryView, s: SbState)
    requires
        g.label.len() == 12,
    ensures
        spec_be16(sb_fields_b(g, s), 6) == g.inopblock as u16,
        sb_fields_b(g, s)[21] == g.sectlog,
        sb_fields_b(g, s)[22] == g.inodelog,
        sb_fields_b(g, s)[27] == g.imaxpct,
        sb_fields_c(g, s)[64] == (g.dirblocklog - g.blocklog) as u8,
        spec_be32(sb_fields_c(g, s), 68) == g.logsunit(),
{
    let b = sb_fields_b(g, s);
    let c = sb_fields_c(g, s);
    assert(b.subrange(6, 8) =~= be16_bytes(g.inopblock as u16));
    lemma_read16(b, 6, g.inopblock as u16);
    assert(c.subrange(68, 72) =~= be32_bytes(g.logsunit()));
    lemma_read32(c, 68, g.logsunit());
}

/// The superblock's sizes hold together: each size is two to the power of
/// its log, a block holds `inopblock` inodes, the directory block log is
/// counted from the block log, the log stripe unit is one block where the
/// log sector is over 512 bytes and 1 otherwise, and the inode space cap
/// is the geometry's.
#[verifier::spinoff_prover]
#[verifier::rlimit(40)]
pub proof fn lemma_sb_sizes_agree(g: GeometryView, s: SbState)
    requires
        g.wf(),
    ensures
        ({
            let sec = sb_sector(g, s);
            let bs = spec_be32(sec, sbo::BLOCKSIZE as int) as int;
            let ss = spec_be16(sec, sbo::SECTSIZE as int) as int;
            let isz = spec_be16(sec, sbo::INODESIZE as int) as int;
            let ipb = spec_be16(sec, sbo::INOPBLOCK as int) as int;
            &&& pow2(sec[sbo::BLOCKLOG as int] as nat) == bs
            &&& pow2(sec[sbo::SECTLOG as int] as nat) == ss
            &&& pow2(sec[sbo::INODELOG as int] as nat) == isz
            &&& pow2(sec[sbo::INOPBLOG as int] as nat) == ipb
            &&& ipb * isz == bs
            &&& sec[sbo::BLOCKLOG as int] + sec[sbo::DIRBLKLOG as int] == g.dirblocklog
            &&& spec_be32(sec, sbo::LOGSUNIT as int) == (if ss > 512 { bs } else { 1 })
            &&& sec[sbo::IMAX_PCT as int] == g.imaxpct
        }),
{
    crate::geometry::lemma_wf_sizes(g);
    lemma_sector_prefix(g, s);
    lemma_fields_parts(g, s);
    lemma_part_b(g, s);
    lemma_part_sizes(g, s);
    lemma_sector_fields(g, s);
    let sec = sb_sector(g, s);
    let b = sb_fields_b(g, s);
    let c = sb_fields_c(g, s);
    assert(spec_be16(sec, 106) == spec_be16(b, 6));
    assert(sec[121] == b[21] && sec[122] == b[22] && sec[127] == b[27]);
    assert(sec[192] == c[64]);
    assert(spec_be32(sec, 196) == spec_be32(c, 68));
    vstd::arithmetic::power2::lemma_pow2_adds(g.inodelog as nat, g.inopblog as nat);
    assert(g.inodelog + g.inopblog == g.blocklog);
}


/// A format with the default features declares them all: every btree
/// feature in `features_ro_compat` (0xf), and file types, sparse inodes,
/// bigtime and 64-bit extent counters in `features_incompat` (0x2b). The
/// geometry keeps the features it was asked for.
#[verifier::spinoff_prover]
#[verifier::rlimit(40)]
pub proof fn lemma_default_features_declared(
    p: crate::geometry::Params,
    size: u64,
    logical: u32,
    physical: u32,
    g: GeometryView,
    s: SbState,
)
    requires
        p.features == crate::geometry::default_features(),
        crate::geometry::spec_compute(p, size, logical, physical) == Ok::<GeometryView, crate::geometry::Refusal>(g),
        g.wf(),
    ensures
        g.features == p.features,
        spec_be32(sb_sector(g, s), sbo::FEATURES_RO_COMPAT as int) == 0xf,
        spec_be32(sb_sector(g, s), sbo::FEATURES_INCOMPAT as int) == 0x2b,
{
    crate::geometry::lemma_compute_keeps_features(p, size, logical, physical);
    lemma_sb_declares_features(g, s);
    let ro = spec_be32(sb_sector(g, s), sbo::FEATURES_RO_COMPAT as int);
    let inc = spec_be32(sb_sector(g, s), sbo::FEATURES_INCOMPAT as int);
    assert(ro == 0xf) by (bit_vector)
        requires
            ro & 1 != 0,
            ro & 2 != 0,
            ro & 4 != 0,
            ro & 8 != 0,
            ro < 16,
    ;
    assert(inc == 0x2b) by (bit_vector)
        requires
            inc & 1 != 0,
            inc & 2 != 0,
            inc & 8 != 0,
            inc & 0x20 != 0,
            inc & 0xffff_ffd4 == 0,
    ;
}


/// The superblock's version word is version 5 with the attributes every
/// v5 filesystem carries (link counts, alignment, v2 directories, v2 log,
/// extent flags, more bits), the sector bit exactly where sectors are over
/// 512 bytes, and no other bit.
#[verifier::spinoff_prover]
pub proof fn lemma_sb_version(g: GeometryView, s: SbState)
    requires
        g.wf(),
    ensures
        ({
            let v = spec_be16(sb_sector(g, s), sbo::VERSIONNUM as int);
            &&& v & 0xf == 5
            &&& v & 0x20 != 0 && v & 0x80 != 0 && v & 0x400 != 0 && v & 0x1000 != 0 && v & 0x2000 != 0
            &&& v & 0x8000 != 0
            &&& (v & 0x800 != 0) == (g.sectsize > 512)
            &&& v & 0x4350 == 0
        }),
{
    crate::geometry::lemma_wf_sizes(g);
    lemma_sector_fields(g, s);
    let v = spec_versionnum(g);
    let big = big_sectors(g);
    assert(big == (g.sectsize > 512));
    assert({
        &&& v & 0xf == 5
        &&& v & 0x20 != 0 && v & 0x80 != 0 && v & 0x400 != 0 && v & 0x1000 != 0 && v & 0x2000 != 0
        &&& v & 0x8000 != 0
        &&& (v & 0x800 != 0) == big
        &&& v & 0x4350 == 0
    }) by (bit_vector)
        requires
            v == (if big {
                (5u16 | 0x20u16 | 0x1000u16 | 0x2000u16 | 0x80u16 | 0x400u16) | 0x800u16
            } else {
                5u16 | 0x20u16 | 0x1000u16 | 0x2000u16 | 0x80u16 | 0x400u16
            }) | 0x8000u16,
    ;
}

} // verus!
