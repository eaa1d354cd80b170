//! Allocation group headers: `struct xfs_agf`, `struct xfs_agi` and
//! `struct xfs_agfl`, one sector each after the superblock.
pub mod agf;
pub mod agfl;
pub mod agi;

use vstd::prelude::*;
use crate::bytes::{be32_bytes, be32_seq, be64_bytes, copy_into, push32, push32_all, push64, push_bytes, push_zeros, zeros};
use crate::crc::{stamp, stamped};
use crate::structs::NULL32;

verus! {

/// `XFS_AGF_MAGIC`, "XAGF".
pub const AGF_MAGIC: u32 = 0x5841_4746;
/// `XFS_AGI_MAGIC`, "XAGI".
pub const AGI_MAGIC: u32 = 0x5841_4749;
/// `XFS_AGFL_MAGIC`, "XAFL".
pub const AGFL_MAGIC: u32 = 0x5841_464c;
/// `XFS_AGF_VERSION` / `XFS_AGI_VERSION`.
pub const AG_VERSION: u32 = 1;
/// `XFS_AGI_UNLINKED_BUCKETS`.
pub const UNLINKED_BUCKETS: usize = 64;

/// Everything in an AGF.
#[derive(Debug, Clone, PartialEq, Eq, Structural)]
pub struct Agf {
    /// AG number.
    pub seqno: u32,
    /// Blocks in this AG.
    pub length: u32,
    /// By-block free space btree root.
    pub bno_root: u32,
    /// By-block free space btree levels.
    pub bno_level: u32,
    /// By-size free space btree root.
    pub cnt_root: u32,
    /// By-size free space btree levels.
    pub cnt_level: u32,
    /// Reverse mapping btree root (0 without rmapbt).
    pub rmap_root: u32,
    /// Reverse mapping btree levels.
    pub rmap_level: u32,
    /// Reverse mapping btree blocks.
    pub rmap_blocks: u32,
    /// Refcount btree root (0 without reflink).
    pub refcount_root: u32,
    /// Refcount btree levels.
    pub refcount_level: u32,
    /// Refcount btree blocks.
    pub refcount_blocks: u32,
    /// Free list: first slot used.
    pub flfirst: u32,
    /// Free list: last slot used.
    pub fllast: u32,
    /// Free list: blocks on it.
    pub flcount: u32,
    /// Free blocks in the free space btrees.
    pub freeblks: u32,
    /// Longest free extent.
    pub longest: u32,
    /// Free space btree blocks beyond the roots.
    pub btreeblks: u32,
}

/// The AGF's fields in on-disk order, up to its CRC.
pub open spec fn agf_fields(a: Agf, uuid: Seq<u8>) -> Seq<u8> {
    be32_bytes(AGF_MAGIC) + be32_bytes(AG_VERSION) + be32_bytes(a.seqno) + be32_bytes(a.length)
        + be32_bytes(a.bno_root) + be32_bytes(a.cnt_root) + be32_bytes(a.rmap_root) + be32_bytes(
        a.bno_level,
    ) + be32_bytes(a.cnt_level) + be32_bytes(a.rmap_level) + be32_bytes(a.flfirst) + be32_bytes(
        a.fllast,
    ) + be32_bytes(a.flcount) + be32_bytes(a.freeblks) + be32_bytes(a.longest) + be32_bytes(
        a.btreeblks,
    ) + uuid + be32_bytes(a.rmap_blocks) + be32_bytes(a.refcount_blocks) + be32_bytes(
        a.refcount_root,
    ) + be32_bytes(a.refcount_level) + zeros(112) + be64_bytes(0)
}

/// An AGF sector of `len` bytes: its fields, zeros, and the CRC.
pub open spec fn agf_sector(a: Agf, uuid: Seq<u8>, len: nat) -> Seq<u8> {
    stamped(agf_fields(a, uuid) + zeros((len - agf::CRC) as nat), agf::CRC as int)
}

impl Agf {
    /// Encode into `sector` (zeroed by the caller) and stamp the CRC.
    pub fn encode(&self, uuid: &[u8; 16], sector: &mut [u8])
        requires
            old(sector)@.len() >= agf::END,
            forall|i: int| 0 <= i < old(sector)@.len() ==> old(sector)@[i] == 0u8,
        ensures
            final(sector)@ == agf_sector(*self, uuid@, old(sector)@.len()),
            final(sector)@.len() == old(sector)@.len(),
    {
        let mut b: Vec<u8> = Vec::with_capacity(sector.len());
        push32(&mut b, AGF_MAGIC);
        push32(&mut b, AG_VERSION);
        push32(&mut b, self.seqno);
        push32(&mut b, self.length);
        push32(&mut b, self.bno_root);
        push32(&mut b, self.cnt_root);
        push32(&mut b, self.rmap_root);
        push32(&mut b, self.bno_level);
        push32(&mut b, self.cnt_level);
        push32(&mut b, self.rmap_level);
        push32(&mut b, self.flfirst);
        push32(&mut b, self.fllast);
        push32(&mut b, self.flcount);
        push32(&mut b, self.freeblks);
        push32(&mut b, self.longest);
        push32(&mut b, self.btreeblks);
        push_bytes(&mut b, uuid);
        push32(&mut b, self.rmap_blocks);
        push32(&mut b, self.refcount_blocks);
        push32(&mut b, self.refcount_root);
        push32(&mut b, self.refcount_level);
        push_zeros(&mut b, 112);
        push64(&mut b, 0);
        assert(b@ =~= agf_fields(*self, uuid@));
        push_zeros(&mut b, sector.len() - agf::CRC);
        stamp(&mut b, agf::CRC);
        copy_into(sector, 0, &b);
        assert(sector@ =~= agf_sector(*self, uuid@, old(sector)@.len()));
    }
}

/// Everything in an AGI.
#[derive(Debug, Clone, PartialEq, Eq, Structural)]
pub struct Agi {
    /// AG number.
    pub seqno: u32,
    /// Blocks in this AG.
    pub length: u32,
    /// Allocated inodes.
    pub count: u32,
    /// Inode btree root.
    pub root: u32,
    /// Inode btree levels.
    pub level: u32,
    /// Free inodes.
    pub freecount: u32,
    /// The most recently allocated chunk's first inode, or `NULLAGINO`.
    pub newino: u32,
    /// Free inode btree root (0 without finobt).
    pub free_root: u32,
    /// Free inode btree levels.
    pub free_level: u32,
    /// Inode btree blocks (0 without inobtcount).
    pub iblocks: u32,
    /// Free inode btree blocks (0 without inobtcount).
    pub fblocks: u32,
}

/// `n` copies of `NULLAGINO`, big-endian.
pub open spec fn null_words(n: nat) -> Seq<u8> {
    be32_seq(Seq::new(n, |i: int| NULL32))
}

/// The AGI's fields in on-disk order, up to [`agi::END`], the CRC zero.
pub open spec fn agi_fields(a: Agi, uuid: Seq<u8>) -> Seq<u8> {
    be32_bytes(AGI_MAGIC) + be32_bytes(AG_VERSION) + be32_bytes(a.seqno) + be32_bytes(a.length)
        + be32_bytes(a.count) + be32_bytes(a.root) + be32_bytes(a.level) + be32_bytes(a.freecount)
        + be32_bytes(a.newino) + be32_bytes(NULL32) + null_words(UNLINKED_BUCKETS as nat) + uuid
        + zeros(8) + be64_bytes(0) + be32_bytes(a.free_root) + be32_bytes(a.free_level)
        + be32_bytes(a.iblocks) + be32_bytes(a.fblocks)
}

/// An AGI sector of `len` bytes: its fields, zeros, and the CRC.
pub open spec fn agi_sector(a: Agi, uuid: Seq<u8>, len: nat) -> Seq<u8> {
    stamped(agi_fields(a, uuid) + zeros((len - agi::END) as nat), agi::CRC as int)
}

impl Agi {
    /// Encode into `sector` (zeroed by the caller) and stamp the CRC.
    pub fn encode(&self, uuid: &[u8; 16], sector: &mut [u8])
        requires
            old(sector)@.len() >= agi::END,
            forall|i: int| 0 <= i < old(sector)@.len() ==> old(sector)@[i] == 0u8,
        ensures
            final(sector)@ == agi_sector(*self, uuid@, old(sector)@.len()),
            final(sector)@.len() == old(sector)@.len(),
    {
        let mut b: Vec<u8> = Vec::with_capacity(sector.len());
        push32(&mut b, AGI_MAGIC);
        push32(&mut b, AG_VERSION);
        push32(&mut b, self.seqno);
        push32(&mut b, self.length);
        push32(&mut b, self.count);
        push32(&mut b, self.root);
        push32(&mut b, self.level);
        push32(&mut b, self.freecount);
        push32(&mut b, self.newino);
        push32(&mut b, NULL32);
        let nulls: Vec<u32> = vec![NULL32; UNLINKED_BUCKETS];
        assert(nulls@ =~= Seq::new(UNLINKED_BUCKETS as nat, |i: int| NULL32));
        push32_all(&mut b, nulls.as_slice());
        push_bytes(&mut b, uuid);
        push_zeros(&mut b, 8);
        push64(&mut b, 0);
        push32(&mut b, self.free_root);
        push32(&mut b, self.free_level);
        push32(&mut b, self.iblocks);
        push32(&mut b, self.fblocks);
        assert(b@ =~= agi_fields(*self, uuid@));
        proof {
            lemma_be32_seq_len(Seq::new(UNLINKED_BUCKETS as nat, |i: int| NULL32));
        }
        push_zeros(&mut b, sector.len() - agi::END);
        stamp(&mut b, agi::CRC);
        copy_into(sector, 0, &b);
        assert(sector@ =~= agi_sector(*self, uuid@, old(sector)@.len()));
    }
}

proof fn lemma_be32_seq_len(s: Seq<u32>)
    ensures
        be32_seq(s).len() == 4 * s.len(),
    decreases s.len(),
{
    if s.len() > 0 {
        lemma_be32_seq_len(s.drop_last());
    }
}

/// The free list slots after putting `list` in order from slot `first`,
/// wrapping at `n`, every other slot `NULLAGBLOCK`.
pub open spec fn agfl_slots(first: int, list: Seq<u32>, n: nat) -> Seq<u32>
    decreases list.len(),
{
    if list.len() == 0 {
        Seq::new(n, |i: int| NULL32)
    } else {
        agfl_slots(first, list.drop_last(), n).update((first + list.len() - 1) % (n as int), list.last())
    }
}

/// An AGFL sector of `len` bytes.
pub open spec fn agfl_sector(seqno: u32, uuid: Seq<u8>, first: u32, list: Seq<u32>, len: nat) -> Seq<u8> {
    let n = ((len - agfl::BNO) / 4) as nat;
    stamped(
        be32_bytes(AGFL_MAGIC) + be32_bytes(seqno) + uuid + be64_bytes(0) + zeros(4) + be32_seq(
            agfl_slots(first as int, list, n),
        ) + zeros(((len - agfl::BNO) % 4) as nat),
        agfl::CRC as int,
    )
}

proof fn lemma_agfl_slots_len(first: int, list: Seq<u32>, n: nat)
    requires
        list.len() > 0 ==> n > 0,
    ensures
        agfl_slots(first, list, n).len() == n,
    decreases list.len(),
{
    if list.len() > 0 {
        lemma_agfl_slots_len(first, list.drop_last(), n);
    }
}

/// Encode an AGFL into `sector`: the header, then `list` in slots
/// `first..`, every other slot `NULLAGBLOCK`.
pub fn encode_agfl(seqno: u32, uuid: &[u8; 16], first: u32, list: &[u32], sector: &mut [u8])
    requires
        old(sector)@.len() >= agfl::BNO,
        list@.len() > 0 ==> old(sector)@.len() >= agfl::BNO + 4,
        list@.len() < 0x1_0000_0000_0000,
        forall|i: int| 0 <= i < old(sector)@.len() ==> old(sector)@[i] == 0u8,
    ensures
        final(sector)@ == agfl_sector(seqno, uuid@, first, list@, old(sector)@.len()),
        final(sector)@.len() == old(sector)@.len(),
{
    let len = sector.len();
    let slots = (len - agfl::BNO) / 4;
    let mut table: Vec<u32> = vec![NULL32; slots];
    assert(table@ =~= agfl_slots(first as int, list@.subrange(0, 0), slots as nat));
    let mut i: usize = 0;
    while i < list.len()
        invariant
            i <= list@.len(),
            slots == (len - agfl::BNO) / 4,
            list@.len() > 0 ==> slots > 0,
            list@.len() < 0x1_0000_0000_0000,
            table@ == agfl_slots(first as int, list@.subrange(0, i as int), slots as nat),
        decreases list@.len() - i,
    {
        proof {
            lemma_agfl_slots_len(first as int, list@.subrange(0, i as int), slots as nat);
        }
        let slot = ((first as u64 + i as u64) % (slots as u64)) as usize;
        table.set(slot, list[i]);
        i += 1;
        proof {
            assert(list@.subrange(0, i as int).drop_last() =~= list@.subrange(0, i - 1));
        }
    }
    assert(list@.subrange(0, list@.len() as int) =~= list@);
    let mut b: Vec<u8> = Vec::with_capacity(len);
    push32(&mut b, AGFL_MAGIC);
    push32(&mut b, seqno);
    push_bytes(&mut b, uuid);
    push64(&mut b, 0);
    push_zeros(&mut b, 4);
    push32_all(&mut b, table.as_slice());
    proof {
        lemma_agfl_slots_len(first as int, list@, slots as nat);
        lemma_be32_seq_len(table@);
    }
    push_zeros(&mut b, (len - agfl::BNO) % 4);
    stamp(&mut b, agfl::CRC);
    copy_into(sector, 0, &b);
    assert(sector@ =~= agfl_sector(seqno, uuid@, first, list@, old(sector)@.len()));
}


/// An AGF sector is as long as it was asked to be.
pub proof fn lemma_agf_sector_len(a: Agf, uuid: Seq<u8>, len: nat)
    requires
        uuid.len() == 16,
        agf::END <= len,
    ensures
        agf_sector(a, uuid, len).len() == len,
{
}

/// An AGI sector is as long as it was asked to be.
pub proof fn lemma_agi_sector_len(a: Agi, uuid: Seq<u8>, len: nat)
    requires
        uuid.len() == 16,
        agi::END <= len,
    ensures
        agi_sector(a, uuid, len).len() == len,
{
    crate::bytes::lemma_be32_seq_len(Seq::new(UNLINKED_BUCKETS as nat, |i: int| NULL32));
}

/// An AGFL sector is as long as it was asked to be.
pub proof fn lemma_agfl_sector_len(seqno: u32, uuid: Seq<u8>, first: u32, list: Seq<u32>, len: nat)
    requires
        uuid.len() == 16,
        agfl::BNO + 4 <= len,
    ensures
        agfl_sector(seqno, uuid, first, list, len).len() == len,
{
    let n = ((len - agfl::BNO) / 4) as nat;
    lemma_agfl_slots_len(first as int, list, n);
    crate::bytes::lemma_be32_seq_len(agfl_slots(first as int, list, n));
}


/// Every AGF sector written carries a CRC that verifies.
pub proof fn lemma_agf_sector_verifies(f: Agf, uuid: Seq<u8>, len: nat)
    requires
        uuid.len() == 16,
        agf::END <= len,
    ensures
        crate::crc::verifies(agf_sector(f, uuid, len), agf::CRC as int),
{
    let buf = agf_fields(f, uuid) + zeros((len - agf::CRC) as nat);
    assert(buf.len() == len);
    crate::crc::lemma_stamp_then_verify(buf, agf::CRC as int);
}

/// Every AGI sector written carries a CRC that verifies.
pub proof fn lemma_agi_sector_verifies(i: Agi, uuid: Seq<u8>, len: nat)
    requires
        uuid.len() == 16,
        agi::END <= len,
    ensures
        crate::crc::verifies(agi_sector(i, uuid, len), agi::CRC as int),
{
    crate::bytes::lemma_be32_seq_len(Seq::new(UNLINKED_BUCKETS as nat, |k: int| NULL32));
    let buf = agi_fields(i, uuid) + zeros((len - agi::END) as nat);
    assert(buf.len() == len);
    crate::crc::lemma_stamp_then_verify(buf, agi::CRC as int);
}

/// Every AGFL sector written carries a CRC that verifies.
pub proof fn lemma_agfl_sector_verifies(seqno: u32, uuid: Seq<u8>, first: u32, list: Seq<u32>, len: nat)
    requires
        uuid.len() == 16,
        agfl::BNO + 4 <= len,
    ensures
        crate::crc::verifies(agfl_sector(seqno, uuid, first, list, len), agfl::CRC as int),
{
    let n = ((len - agfl::BNO) / 4) as nat;
    lemma_agfl_slots_len(first as int, list, n);
    crate::bytes::lemma_be32_seq_len(agfl_slots(first as int, list, n));
    let buf = be32_bytes(AGFL_MAGIC) + be32_bytes(seqno) + uuid + be64_bytes(0) + zeros(4) + be32_seq(
        agfl_slots(first as int, list, n),
    ) + zeros(((len - agfl::BNO) % 4) as nat);
    assert(buf.len() == len);
    crate::crc::lemma_stamp_then_verify(buf, agfl::CRC as int);
}


/// An AGI sector records the levels and block counts it was made with.
#[verifier::spinoff_prover]
#[verifier::rlimit(40)]
pub proof fn lemma_agi_sector_counts(a: Agi, uuid: Seq<u8>, len: nat)
    requires
        uuid.len() == 16,
        agi::END <= len,
    ensures
        crate::bytes::spec_be32(agi_sector(a, uuid, len), agi::LEVEL as int) == a.level,
        crate::bytes::spec_be32(agi_sector(a, uuid, len), agi::FREE_LEVEL as int) == a.free_level,
        crate::bytes::spec_be32(agi_sector(a, uuid, len), agi::IBLOCKS as int) == a.iblocks,
        crate::bytes::spec_be32(agi_sector(a, uuid, len), agi::FBLOCKS as int) == a.fblocks,
        crate::bytes::spec_be32(agi_sector(a, uuid, len), agi::COUNT as int) == a.count,
        crate::bytes::spec_be32(agi_sector(a, uuid, len), agi::FREECOUNT as int) == a.freecount,
        crate::bytes::spec_be32(agi_sector(a, uuid, len), agi::NEWINO as int) == a.newino,
{
    crate::bytes::lemma_be32_seq_len(Seq::new(UNLINKED_BUCKETS as nat, |k: int| NULL32));
    let f = agi_fields(a, uuid);
    let buf = f + zeros((len - agi::END) as nat);
    let sec = agi_sector(a, uuid, len);
    assert(f.len() == agi::END);
    assert(f.subrange(24, 28) =~= be32_bytes(a.level));
    assert(f.subrange(332, 336) =~= be32_bytes(a.free_level));
    assert(f.subrange(336, 340) =~= be32_bytes(a.iblocks));
    assert(f.subrange(340, 344) =~= be32_bytes(a.fblocks));
    crate::crc::lemma_stamped_len(buf, agi::CRC as int);
    assert(sec.subrange(24, 28) =~= f.subrange(24, 28));
    assert(sec.subrange(332, 344) =~= f.subrange(332, 344));
    assert(sec.subrange(332, 336) =~= f.subrange(332, 336));
    assert(sec.subrange(336, 340) =~= f.subrange(336, 340));
    assert(sec.subrange(340, 344) =~= f.subrange(340, 344));
    assert(f.subrange(16, 20) =~= be32_bytes(a.count));
    assert(f.subrange(28, 32) =~= be32_bytes(a.freecount));
    assert(f.subrange(32, 36) =~= be32_bytes(a.newino));
    assert(sec.subrange(16, 20) =~= f.subrange(16, 20));
    assert(sec.subrange(28, 32) =~= f.subrange(28, 32));
    assert(sec.subrange(32, 36) =~= f.subrange(32, 36));
    crate::bytes::lemma_read32_at(sec, 16, a.count);
    crate::bytes::lemma_read32_at(sec, 28, a.freecount);
    crate::bytes::lemma_read32_at(sec, 32, a.newino);
    crate::bytes::lemma_read32_at(sec, 24, a.level);
    crate::bytes::lemma_read32_at(sec, 332, a.free_level);
    crate::bytes::lemma_read32_at(sec, 336, a.iblocks);
    crate::bytes::lemma_read32_at(sec, 340, a.fblocks);
}


/// An AGF sector records the free space counts and btree sizes it was
/// made with.
#[verifier::spinoff_prover]
#[verifier::rlimit(40)]
pub proof fn lemma_agf_sector_counts(a: Agf, uuid: Seq<u8>, len: nat)
    requires
        uuid.len() == 16,
        agf::END <= len,
    ensures
        crate::bytes::spec_be32(agf_sector(a, uuid, len), agf::BNO_LEVEL as int) == a.bno_level,
        crate::bytes::spec_be32(agf_sector(a, uuid, len), agf::CNT_LEVEL as int) == a.cnt_level,
        crate::bytes::spec_be32(agf_sector(a, uuid, len), agf::RMAP_LEVEL as int) == a.rmap_level,
        crate::bytes::spec_be32(agf_sector(a, uuid, len), agf::FLCOUNT as int) == a.flcount,
        crate::bytes::spec_be32(agf_sector(a, uuid, len), agf::FREEBLKS as int) == a.freeblks,
        crate::bytes::spec_be32(agf_sector(a, uuid, len), agf::LONGEST as int) == a.longest,
        crate::bytes::spec_be32(agf_sector(a, uuid, len), agf::BTREEBLKS as int) == a.btreeblks,
        crate::bytes::spec_be32(agf_sector(a, uuid, len), agf::RMAP_BLOCKS as int) == a.rmap_blocks,
        crate::bytes::spec_be32(agf_sector(a, uuid, len), agf::REFCOUNT_BLOCKS as int) == a.refcount_blocks,
        crate::bytes::spec_be32(agf_sector(a, uuid, len), agf::REFCOUNT_LEVEL as int) == a.refcount_level,
{
    let f = agf_fields(a, uuid);
    let buf = f + zeros((len - agf::CRC) as nat);
    let sec = agf_sector(a, uuid, len);
    assert(f.len() == agf::CRC);
    crate::crc::lemma_stamped_len(buf, agf::CRC as int);
    assert(sec.subrange(0, 96) =~= f.subrange(0, 96));
    assert(f.subrange(28, 32) =~= be32_bytes(a.bno_level));
    assert(f.subrange(32, 36) =~= be32_bytes(a.cnt_level));
    assert(f.subrange(36, 40) =~= be32_bytes(a.rmap_level));
    assert(f.subrange(48, 52) =~= be32_bytes(a.flcount));
    assert(f.subrange(52, 56) =~= be32_bytes(a.freeblks));
    assert(f.subrange(56, 60) =~= be32_bytes(a.longest));
    assert(f.subrange(60, 64) =~= be32_bytes(a.btreeblks));
    assert(f.subrange(80, 84) =~= be32_bytes(a.rmap_blocks));
    assert(f.subrange(84, 88) =~= be32_bytes(a.refcount_blocks));
    assert(f.subrange(92, 96) =~= be32_bytes(a.refcount_level));
    assert forall|o: int| 0 <= o && o + 4 <= 96 implies #[trigger] sec.subrange(o, o + 4) == f.subrange(o, o + 4) by {
        assert(sec.subrange(o, o + 4) =~= f.subrange(o, o + 4));
    }
    crate::bytes::lemma_read32_at(sec, 28, a.bno_level);
    crate::bytes::lemma_read32_at(sec, 32, a.cnt_level);
    crate::bytes::lemma_read32_at(sec, 36, a.rmap_level);
    crate::bytes::lemma_read32_at(sec, 48, a.flcount);
    crate::bytes::lemma_read32_at(sec, 52, a.freeblks);
    crate::bytes::lemma_read32_at(sec, 56, a.longest);
    crate::bytes::lemma_read32_at(sec, 60, a.btreeblks);
    crate::bytes::lemma_read32_at(sec, 80, a.rmap_blocks);
    crate::bytes::lemma_read32_at(sec, 84, a.refcount_blocks);
    crate::bytes::lemma_read32_at(sec, 92, a.refcount_level);
}

} // verus!
