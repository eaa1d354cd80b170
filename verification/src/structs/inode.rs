//! On-disk inodes: `struct xfs_dinode` (v3), followed by the data fork.
pub mod format;
pub mod off;

use vstd::prelude::*;
use crate::bytes::{be16_bytes, be32_bytes, be64_bytes, copy_into, push16, push32, push64, push_bytes, push_zeros, put16, put32, put64, splice, zeros};
use crate::crc::{stamp, stamped};
use crate::geometry::Timestamp;
use crate::structs::NULL32;

verus! {

/// `XFS_DINODE_MAGIC`, "IN".
pub const MAGIC: u16 = 0x494e;
/// Size of the v3 inode core; the data fork starts here.
pub const CORE_SIZE: usize = 176;
/// `XFS_DIFLAG_NEWRTBM`: the realtime bitmap inode's atime is a counter.
pub const DIFLAG_NEWRTBM: u16 = 4;
/// `XFS_DIFLAG2_BIGTIME`.
pub const DIFLAG2_BIGTIME: u64 = 8;
/// `XFS_DIFLAG2_NREXT64`.
pub const DIFLAG2_NREXT64: u64 = 16;
/// `XFS_BIGTIME_EPOCH_OFFSET`: bigtime counts from the minimum 32-bit time.
pub const BIGTIME_EPOCH_OFFSET: i64 = 0x8000_0000;
/// Nanoseconds in a second.
pub const NSEC_PER_SEC: u64 = 1_000_000_000;

/// A time `encode_time` can store: a bigtime count that fits 64 bits, or
/// any time at all in the legacy format (which keeps the low 32 bits of the
/// seconds).
pub open spec fn encodable(t: Timestamp, bigtime: bool) -> bool {
    bigtime ==> {
        &&& t.secs <= i64::MAX - BIGTIME_EPOCH_OFFSET
        &&& ((t.secs + BIGTIME_EPOCH_OFFSET) as u64) * NSEC_PER_SEC + t.nsecs <= u64::MAX
    }
}

/// Whether `encode_time` can store `t`: see [`encodable`].
pub fn is_encodable(t: Timestamp, bigtime: bool) -> (r: bool)
    ensures
        r == encodable(t, bigtime),
{
    if !bigtime {
        return true;
    }
    if t.secs > i64::MAX - BIGTIME_EPOCH_OFFSET {
        return false;
    }
    let shifted = t.secs + BIGTIME_EPOCH_OFFSET;
    if shifted < 0 {
        proof {
            assert((shifted as u64) >= 0x8000_0000_0000_0000u64) by (bit_vector)
                requires
                    shifted < 0,
            ;
            assert(((t.secs + BIGTIME_EPOCH_OFFSET) as u64) == (shifted as u64));
            assert(((t.secs + BIGTIME_EPOCH_OFFSET) as u64) * NSEC_PER_SEC > u64::MAX) by (nonlinear_arith)
                requires
                    ((t.secs + BIGTIME_EPOCH_OFFSET) as u64) >= 0x8000_0000_0000_0000u64,
            ;
        }
        return false;
    }
    match (shifted as u64).checked_mul(NSEC_PER_SEC) {
        None => false,
        Some(n) => n.checked_add(t.nsecs as u64).is_some(),
    }
}

/// A timestamp as the inode stores it.
pub open spec fn spec_encode_time(t: Timestamp, bigtime: bool) -> u64 {
    if bigtime {
        (((t.secs + BIGTIME_EPOCH_OFFSET) as u64) * NSEC_PER_SEC + t.nsecs) as u64
    } else {
        (((t.secs as u32) as u64) << 32u64) | (t.nsecs as u64)
    }
}

/// A stored timestamp read back.
pub open spec fn spec_decode_time(raw: u64, bigtime: bool) -> Timestamp {
    if bigtime {
        Timestamp {
            secs: ((raw / NSEC_PER_SEC) as i64 - BIGTIME_EPOCH_OFFSET) as i64,
            nsecs: (raw % NSEC_PER_SEC) as u32,
        }
    } else {
        Timestamp { secs: (((raw >> 32u64) as u32) as i32) as i64, nsecs: raw as u32 }
    }
}

/// Encode a timestamp as the inode stores it.
pub fn encode_time(t: Timestamp, bigtime: bool) -> (r: u64)
    requires
        encodable(t, bigtime),
    ensures
        r == spec_encode_time(t, bigtime),
{
    if bigtime {
        ((t.secs + BIGTIME_EPOCH_OFFSET) as u64) * NSEC_PER_SEC + t.nsecs as u64
    } else {
        (((t.secs as u32) as u64) << 32u64) | (t.nsecs as u64)
    }
}

/// Decode a stored timestamp.
pub fn decode_time(raw: u64, bigtime: bool) -> (t: Timestamp)
    ensures
        t == spec_decode_time(raw, bigtime),
{
    if bigtime {
        Timestamp {
            secs: (raw / NSEC_PER_SEC) as i64 - BIGTIME_EPOCH_OFFSET,
            nsecs: (raw % NSEC_PER_SEC) as u32,
        }
    } else {
        Timestamp { secs: (((raw >> 32u64) as u32) as i32) as i64, nsecs: raw as u32 }
    }
}

/// Reading back a stored time gives the time stored, for every time the
/// format can hold: with bigtime, from 1901-12-13 on with whole nanoseconds
/// under a second; without, any 32-bit second count.
pub proof fn lemma_time_roundtrip(t: Timestamp, bigtime: bool)
    requires
        encodable(t, bigtime),
        t.nsecs < NSEC_PER_SEC,
        bigtime ==> t.secs >= -BIGTIME_EPOCH_OFFSET,
        !bigtime ==> i32::MIN <= t.secs <= i32::MAX,
    ensures
        spec_decode_time(spec_encode_time(t, bigtime), bigtime) == t,
{
    if bigtime {
        let s = (t.secs + BIGTIME_EPOCH_OFFSET) as u64;
        let raw = (s * NSEC_PER_SEC + t.nsecs) as u64;
        assert(raw / NSEC_PER_SEC == s && raw % NSEC_PER_SEC == t.nsecs) by {
            vstd::arithmetic::div_mod::lemma_fundamental_div_mod_converse(
                raw as int,
                NSEC_PER_SEC as int,
                s as int,
                t.nsecs as int,
            );
        }
    } else {
        let secs = t.secs;
        let ns = t.nsecs;
        let raw = (((secs as u32) as u64) << 32u64) | (ns as u64);
        assert((((raw >> 32u64) as u32) as i32) as i64 == secs && raw as u32 == ns) by (bit_vector)
            requires
                -0x8000_0000i64 <= secs <= 0x7fff_ffffi64,
                raw == (((secs as u32) as u64) << 32u64) | (ns as u64),
        ;
    }
}

/// An allocated inode, as `mkfs.xfs` creates them (no attribute fork).
#[derive(Debug, Clone)]
pub struct Dinode {
    /// Inode number.
    pub ino: u64,
    /// Type and permissions.
    pub mode: u16,
    /// Data fork format.
    pub format: u8,
    /// Link count.
    pub nlink: u32,
    /// File size in bytes.
    pub size: u64,
    /// `di_flags`.
    pub flags: u16,
    /// `di_flags2`.
    pub flags2: u64,
    /// Generation number.
    pub gen: u32,
    /// `di_changecount`.
    pub changecount: u64,
    /// Last access.
    pub atime: Timestamp,
    /// Last modification.
    pub mtime: Timestamp,
    /// Last status change.
    pub ctime: Timestamp,
    /// Creation.
    pub crtime: Timestamp,
    /// The data fork's bytes (a short-form directory, say).
    pub data: Vec<u8>,
}

/// The fields of a [`Dinode`], its data fork as a sequence.
pub struct DinodeView {
    pub ino: u64,
    pub mode: u16,
    pub format: u8,
    pub nlink: u32,
    pub size: u64,
    pub flags: u16,
    pub flags2: u64,
    pub gen: u32,
    pub changecount: u64,
    pub atime: Timestamp,
    pub mtime: Timestamp,
    pub ctime: Timestamp,
    pub crtime: Timestamp,
    pub data: Seq<u8>,
}

impl View for Dinode {
    type V = DinodeView;

    open spec fn view(&self) -> DinodeView {
        DinodeView {
            ino: self.ino,
            mode: self.mode,
            format: self.format,
            nlink: self.nlink,
            size: self.size,
            flags: self.flags,
            flags2: self.flags2,
            gen: self.gen,
            changecount: self.changecount,
            atime: self.atime,
            mtime: self.mtime,
            ctime: self.ctime,
            crtime: self.crtime,
            data: self.data@,
        }
    }
}

/// Whether `flags2` asks for the bigtime timestamp format.
pub open spec fn is_bigtime(flags2: u64) -> bool {
    flags2 & DIFLAG2_BIGTIME != 0
}

/// What [`Dinode::encode`] can store: every timestamp fits the format
/// `flags2` selects.
pub open spec fn dinode_encodable(d: DinodeView) -> bool {
    let bt = is_bigtime(d.flags2);
    &&& encodable(d.atime, bt)
    &&& encodable(d.mtime, bt)
    &&& encodable(d.ctime, bt)
    &&& encodable(d.crtime, bt)
}

/// The v3 inode core of `d`, field by field, its CRC zero.
pub open spec fn dinode_core(d: DinodeView, uuid: Seq<u8>) -> Seq<u8> {
    let bt = is_bigtime(d.flags2);
    be16_bytes(MAGIC) + be16_bytes(d.mode) + seq![3u8, d.format] + zeros(10) + be32_bytes(d.nlink)
        + zeros(12) + be64_bytes(spec_encode_time(d.atime, bt)) + be64_bytes(
        spec_encode_time(d.mtime, bt),
    ) + be64_bytes(spec_encode_time(d.ctime, bt)) + be64_bytes(d.size) + zeros(18) + seq![
        0u8,
        format::EXTENTS,
    ] + zeros(6) + be16_bytes(d.flags) + be32_bytes(d.gen) + be32_bytes(NULL32) + zeros(4)
        + be64_bytes(d.changecount) + zeros(8) + be64_bytes(d.flags2) + zeros(16) + be64_bytes(
        spec_encode_time(d.crtime, bt),
    ) + be64_bytes(d.ino) + uuid
}

/// An inode slot of `len` bytes holding `d`: the core, the data fork,
/// zeros, and the CRC.
pub open spec fn dinode_slot(d: DinodeView, uuid: Seq<u8>, len: nat) -> Seq<u8> {
    stamped(
        dinode_core(d, uuid) + d.data + zeros((len - CORE_SIZE - d.data.len()) as nat),
        off::CRC as int,
    )
}

impl Dinode {
    /// Encode into `slot` (one inode, zeroed by the caller) and stamp the CRC.
    pub fn encode(&self, uuid: &[u8; 16], slot: &mut [u8])
        requires
            dinode_encodable(self@),
            CORE_SIZE + self.data@.len() <= old(slot)@.len(),
            forall|i: int| 0 <= i < old(slot)@.len() ==> old(slot)@[i] == 0u8,
        ensures
            final(slot)@ == dinode_slot(self@, uuid@, old(slot)@.len()),
    {
        let bigtime = self.flags2 & DIFLAG2_BIGTIME != 0;
        let mut b: Vec<u8> = Vec::with_capacity(slot.len());
        push16(&mut b, MAGIC);
        push16(&mut b, self.mode);
        b.push(3u8);
        b.push(self.format);
        push_zeros(&mut b, 10);
        push32(&mut b, self.nlink);
        push_zeros(&mut b, 12);
        push64(&mut b, encode_time(self.atime, bigtime));
        push64(&mut b, encode_time(self.mtime, bigtime));
        push64(&mut b, encode_time(self.ctime, bigtime));
        push64(&mut b, self.size);
        push_zeros(&mut b, 18);
        b.push(0u8);
        b.push(format::EXTENTS);
        push_zeros(&mut b, 6);
        push16(&mut b, self.flags);
        push32(&mut b, self.gen);
        push32(&mut b, NULL32);
        push_zeros(&mut b, 4);
        push64(&mut b, self.changecount);
        push_zeros(&mut b, 8);
        push64(&mut b, self.flags2);
        push_zeros(&mut b, 16);
        push64(&mut b, encode_time(self.crtime, bigtime));
        push64(&mut b, self.ino);
        push_bytes(&mut b, uuid);
        assert(b@ =~= dinode_core(self@, uuid@));
        push_bytes(&mut b, self.data.as_slice());
        push_zeros(&mut b, slot.len() - CORE_SIZE - self.data.len());
        stamp(&mut b, off::CRC);
        copy_into(slot, 0, &b);
        assert(slot@ =~= dinode_slot(self@, uuid@, old(slot)@.len()));
    }
}

/// A never-allocated inode written over `s`: magic, version, generation,
/// an empty unlinked pointer, its number and the UUID, then the CRC.
pub open spec fn free_inode(ino: u64, gen: u32, uuid: Seq<u8>, s: Seq<u8>) -> Seq<u8> {
    stamped(
        splice(
            splice(
                splice(
                    splice(
                        splice(splice(s, off::MAGIC as int, be16_bytes(MAGIC)), off::VERSION as int, seq![3u8]),
                        off::GEN as int,
                        be32_bytes(gen),
                    ),
                    off::NEXT_UNLINKED as int,
                    be32_bytes(NULL32),
                ),
                off::INO as int,
                be64_bytes(ino),
            ),
            off::UUID as int,
            uuid,
        ),
        off::CRC as int,
    )
}

/// Encode a never-allocated inode into `slot`, as `xfs_ialloc_inode_init`
/// writes every inode of a new chunk: magic, version, generation, an empty
/// unlinked pointer, its number and the UUID.
pub fn encode_free(ino: u64, gen: u32, uuid: &[u8; 16], slot: &mut [u8])
    requires
        CORE_SIZE <= old(slot)@.len(),
    ensures
        final(slot)@ == free_inode(ino, gen, uuid@, old(slot)@),
{
    put16(slot, off::MAGIC, MAGIC);
    slot[off::VERSION] = 3u8;
    assert(slot@ =~= splice(splice(old(slot)@, off::MAGIC as int, be16_bytes(MAGIC)), off::VERSION as int, seq![3u8]));
    put32(slot, off::GEN, gen);
    put32(slot, off::NEXT_UNLINKED, NULL32);
    put64(slot, off::INO, ino);
    copy_into(slot, off::UUID, uuid);
    stamp(slot, off::CRC);
}

/// The data fork of an empty short-form directory whose parent is
/// `parent`: no entries, and inode numbers of four bytes unless the parent
/// needs eight.
pub open spec fn spec_empty_sf_dir(parent: u64) -> Seq<u8> {
    if parent > u32::MAX {
        seq![0u8, 1u8] + be64_bytes(parent)
    } else {
        seq![0u8, 0u8] + be32_bytes(parent as u32)
    }
}

/// The data fork of an empty short-form directory (`xfs_dir2_sf_hdr`):
/// no entries, 4-byte inode numbers, `parent` as its parent.
pub fn empty_sf_dir(parent: u64) -> (d: Vec<u8>)
    ensures
        d@ == spec_empty_sf_dir(parent),
{
    let mut d: Vec<u8> = Vec::new();
    d.push(0u8);
    if parent > u32::MAX as u64 {
        // xfs_dir2_sf_create: a parent past 32 bits makes i8count 1.
        d.push(1u8);
        push64(&mut d, parent);
    } else {
        d.push(0u8);
        push32(&mut d, parent as u32);
    }
    assert(d@ =~= spec_empty_sf_dir(parent));
    d
}


/// Every inode written in full carries a CRC that verifies.
pub proof fn lemma_dinode_slot_verifies(d: DinodeView, uuid: Seq<u8>, len: nat)
    requires
        uuid.len() == 16,
        CORE_SIZE + d.data.len() <= len,
    ensures
        crate::crc::verifies(dinode_slot(d, uuid, len), off::CRC as int),
{
    let buf = dinode_core(d, uuid) + d.data + zeros((len - CORE_SIZE - d.data.len()) as nat);
    assert(buf.len() == len);
    crate::crc::lemma_stamp_then_verify(buf, off::CRC as int);
}


/// An inode slot records the inode it was written for: its mode, format,
/// link count and size where the core keeps them, and its data fork right
/// after the core.
#[verifier::spinoff_prover]
#[verifier::rlimit(40)]
pub proof fn lemma_slot_records(d: DinodeView, uuid: Seq<u8>, len: nat)
    requires
        uuid.len() == 16,
        CORE_SIZE + d.data.len() <= len,
    ensures
        dinode_slot(d, uuid, len).len() == len,
        crate::bytes::spec_be16(dinode_slot(d, uuid, len), off::MODE as int) == d.mode,
        dinode_slot(d, uuid, len)[off::FORMAT as int] == d.format,
        crate::bytes::spec_be32(dinode_slot(d, uuid, len), off::NLINK as int) == d.nlink,
        crate::bytes::spec_be64(dinode_slot(d, uuid, len), off::SIZE as int) == d.size,
        crate::bytes::spec_be64(dinode_slot(d, uuid, len), off::FLAGS2 as int) == d.flags2,
        crate::bytes::spec_be64(dinode_slot(d, uuid, len), off::INO as int) == d.ino,
        dinode_slot(d, uuid, len).subrange(CORE_SIZE as int, CORE_SIZE + d.data.len()) == d.data,
{
    let core = dinode_core(d, uuid);
    let buf = core + d.data + zeros((len - CORE_SIZE - d.data.len()) as nat);
    assert(core.len() == CORE_SIZE);
    crate::crc::lemma_stamped_len(buf, off::CRC as int);
    let slot = dinode_slot(d, uuid, len);
    assert(forall|i: int| 104 <= i < len ==> #[trigger] slot[i] == buf[i]);
    assert(core.subrange(2, 4) =~= be16_bytes(d.mode));
    assert(slot.subrange(2, 4) =~= be16_bytes(d.mode));
    assert(crate::bytes::spec_be16(slot, 2) == crate::bytes::from_be16(slot[2], slot[3]));
    assert(slot[2] == be16_bytes(d.mode)[0] && slot[3] == be16_bytes(d.mode)[1]);
    crate::bytes::lemma_be16_roundtrip(d.mode);
    assert(slot.subrange(16, 20) =~= be32_bytes(d.nlink));
    crate::bytes::lemma_read32_at(slot, 16, d.nlink);
    let sz = d.size;
    assert(slot.subrange(56, 60) =~= be32_bytes((sz >> 32u64) as u32));
    assert(slot.subrange(60, 64) =~= be32_bytes(sz as u32));
    crate::bytes::lemma_read32_at(slot, 56, (sz >> 32u64) as u32);
    crate::bytes::lemma_read32_at(slot, 60, sz as u32);
    crate::bytes::lemma_be64_roundtrip(sz);
    let f2 = d.flags2;
    assert(slot.subrange(120, 124) =~= be32_bytes((f2 >> 32u64) as u32));
    assert(slot.subrange(124, 128) =~= be32_bytes(f2 as u32));
    crate::bytes::lemma_read32_at(slot, 120, (f2 >> 32u64) as u32);
    crate::bytes::lemma_read32_at(slot, 124, f2 as u32);
    crate::bytes::lemma_be64_roundtrip(f2);
    let ino = d.ino;
    assert(slot.subrange(152, 156) =~= be32_bytes((ino >> 32u64) as u32));
    assert(slot.subrange(156, 160) =~= be32_bytes(ino as u32));
    crate::bytes::lemma_read32_at(slot, 152, (ino >> 32u64) as u32);
    crate::bytes::lemma_read32_at(slot, 156, ino as u32);
    crate::bytes::lemma_be64_roundtrip(ino);
    assert(slot.subrange(CORE_SIZE as int, CORE_SIZE + d.data.len()) =~= d.data);
}

} // verus!
