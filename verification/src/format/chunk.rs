//! The root inode chunk: every inode initialised free, then the root
//! directory and the realtime bitmap and summary inodes.
use vstd::prelude::*;
use crate::bytes::{push_bytes, zeros};
use crate::geometry::{Features, Geometry, GeometryView, Timestamp};
use crate::structs::inode::{
    self, dinode_slot, encodable, encode_free, free_inode, is_bigtime, spec_empty_sf_dir, Dinode,
    DinodeView, CORE_SIZE, DIFLAG2_BIGTIME, DIFLAG2_NREXT64, DIFLAG_NEWRTBM,
};

verus! {

/// The splitmix64 increment.
pub const GOLDEN: u64 = 0x9e37_79b9_7f4a_7c15;
/// Inodes in a chunk.
pub const CHUNK_INODES: u64 = 64;
/// `S_IFDIR | 0755`.
pub const MODE_ROOT_DIR: u16 = 0o040755;
/// `S_IFREG`, no permissions: the realtime bitmap and summary.
pub const MODE_RT_FILE: u16 = 0o100000;

/// A small, fast generator for inode generation numbers (splitmix64).
pub struct Gen(pub u64);

/// The splitmix64 output for state `z`, its low 32 bits.
#[verifier::opaque]
pub open spec fn mix(z: u64) -> u32 {
    let a = (z ^ (z >> 30u64)).wrapping_mul(0xbf58_476d_1ce4_e5b9u64);
    let b = (a ^ (a >> 27u64)).wrapping_mul(0x94d0_49bb_1331_11ebu64);
    (b ^ (b >> 31u64)) as u32
}

/// The generator's state after `n` draws from `seed`.
pub open spec fn advance(seed: u64, n: nat) -> u64
    decreases n,
{
    if n == 0 {
        seed
    } else {
        advance(seed, (n - 1) as nat).wrapping_add(GOLDEN)
    }
}

/// The `n`-th number drawn from `seed`, counting from 1.
pub open spec fn drawn(seed: u64, n: nat) -> u32 {
    mix(advance(seed, n))
}

impl Gen {
    /// The next generation number.
    pub fn next(&mut self) -> (r: u32)
        ensures
            final(self).0 == old(self).0.wrapping_add(GOLDEN),
            r == mix(final(self).0),
    {
        reveal(mix);
        self.0 = self.0.wrapping_add(GOLDEN);
        let mut z = self.0;
        z = (z ^ (z >> 30u64)).wrapping_mul(0xbf58_476d_1ce4_e5b9u64);
        z = (z ^ (z >> 27u64)).wrapping_mul(0x94d0_49bb_1331_11ebu64);
        (z ^ (z >> 31u64)) as u32
    }
}

/// `di_flags2` of the inodes `mkfs.xfs` creates.
pub open spec fn chunk_flags2(f: Features) -> u64 {
    (if f.bigtime { DIFLAG2_BIGTIME } else { 0u64 }) | (if f.nrext64 { DIFLAG2_NREXT64 } else { 0u64 })
}

/// What the three inodes have in common: an empty regular file created at
/// `time`, changed twice (the create and the transaction that logged it).
pub open spec fn base_inode(first: u64, flags2: u64, time: Timestamp) -> DinodeView {
    DinodeView {
        ino: first,
        mode: 0,
        format: inode::format::EXTENTS,
        nlink: 1,
        size: 0,
        flags: 0,
        flags2,
        gen: 0,
        changecount: 2,
        atime: time,
        mtime: time,
        ctime: time,
        crtime: time,
        data: Seq::empty(),
    }
}

/// The root directory: empty, short-form, its own parent, generation zero.
pub open spec fn root_inode(first: u64, flags2: u64, time: Timestamp) -> DinodeView {
    DinodeView {
        mode: MODE_ROOT_DIR,
        format: inode::format::LOCAL,
        nlink: 2,
        size: spec_empty_sf_dir(first).len() as u64,
        data: spec_empty_sf_dir(first),
        ..base_inode(first, flags2, time)
    }
}

/// The realtime bitmap inode: its atime is the summary's sequence counter.
pub open spec fn rbm_inode(first: u64, flags2: u64, time: Timestamp, gen: u32) -> DinodeView {
    DinodeView {
        ino: (first + 1) as u64,
        mode: MODE_RT_FILE,
        flags: DIFLAG_NEWRTBM,
        gen,
        atime: Timestamp { secs: 0, nsecs: 0 },
        ..base_inode(first, flags2, time)
    }
}

/// The realtime summary inode.
pub open spec fn rsum_inode(first: u64, flags2: u64, time: Timestamp, gen: u32) -> DinodeView {
    DinodeView {
        ino: (first + 2) as u64,
        mode: MODE_RT_FILE,
        gen,
        ..base_inode(first, flags2, time)
    }
}

/// Slot `i` of the root chunk whose first inode is `first`: the root
/// directory, the realtime bitmap and summary, then free inodes, all
/// sharing the chunk's generation number (the first drawn).
#[verifier::opaque]
pub open spec fn chunk_slot(g: GeometryView, first: u64, uuid: Seq<u8>, time: Timestamp, seed: u64, i: int) -> Seq<u8> {
    let isz = g.inodesize as nat;
    let f2 = chunk_flags2(g.features);
    if i == 0 {
        dinode_slot(root_inode(first, f2, time), uuid, isz)
    } else if i == 1 {
        dinode_slot(rbm_inode(first, f2, time, drawn(seed, 2)), uuid, isz)
    } else if i == 2 {
        dinode_slot(rsum_inode(first, f2, time, drawn(seed, 3)), uuid, isz)
    } else {
        free_inode((first + i) as u64, drawn(seed, 1), uuid, zeros(isz))
    }
}

/// The first `n` slots of the chunk, one after another.
pub open spec fn chunk_slots(g: GeometryView, first: u64, uuid: Seq<u8>, time: Timestamp, seed: u64, n: nat) -> Seq<u8>
    decreases n,
{
    if n == 0 {
        Seq::empty()
    } else {
        chunk_slots(g, first, uuid, time, seed, (n - 1) as nat) + chunk_slot(g, first, uuid, time, seed, n - 1)
    }
}

/// The root inode chunk at block `agbno` of AG 0, generation numbers drawn
/// from `seed`.
#[verifier::opaque]
pub open spec fn spec_root_chunk(g: GeometryView, agbno: int, uuid: Seq<u8>, time: Timestamp, seed: u64) -> Seq<u8> {
    chunk_slots(g, g.ino(0, agbno, 0) as u64, uuid, time, seed, CHUNK_INODES as nat)
}

proof fn lemma_chunk_flags2(f: Features)
    ensures
        is_bigtime(chunk_flags2(f)) == f.bigtime,
{
    assert((8u64 | 16u64) & 8u64 != 0 && (8u64 | 0u64) & 8u64 != 0 && (0u64 | 16u64) & 8u64 == 0
        && (0u64 | 0u64) & 8u64 == 0) by (bit_vector);
}

fn zeroed(n: usize) -> (v: Vec<u8>)
    ensures
        v@ == zeros(n as nat),
{
    let v: Vec<u8> = vec![0u8; n];
    assert(v@ =~= zeros(n as nat));
    v
}

fn encode_inode(d: &Dinode, uuid: &[u8; 16], isz: usize) -> (v: Vec<u8>)
    requires
        inode::dinode_encodable(d@),
        CORE_SIZE + d.data@.len() <= isz,
    ensures
        v@ == dinode_slot(d@, uuid@, isz as nat),
{
    let mut v = zeroed(isz);
    d.encode(uuid, v.as_mut_slice());
    v
}

fn encode_slot(
    g: &Geometry,
    i: u64,
    root: &Dinode,
    rbm: &Dinode,
    rsum: &Dinode,
    first: u64,
    chunk_gen: u32,
    uuid: &[u8; 16],
    time: Timestamp,
    Ghost(seed): Ghost<u64>,
) -> (v: Vec<u8>)
    requires
        i < CHUNK_INODES,
        512 <= g.inodesize <= 2048,
        first <= 0x4000_0000 * 32,
        chunk_gen == drawn(seed, 1),
        root@ == root_inode(first, chunk_flags2(g.features), time),
        rbm@ == rbm_inode(first, chunk_flags2(g.features), time, drawn(seed, 2)),
        rsum@ == rsum_inode(first, chunk_flags2(g.features), time, drawn(seed, 3)),
        inode::dinode_encodable(root@),
        inode::dinode_encodable(rbm@),
        inode::dinode_encodable(rsum@),
        root.data@.len() <= 10,
        rbm.data@.len() == 0,
        rsum.data@.len() == 0,
    ensures
        v@ == chunk_slot(g@, first, uuid@, time, seed, i as int),
        v@.len() == g.inodesize,
{
    reveal(chunk_slot);
    let isz = g.inodesize as usize;
    if i == 0 {
        encode_inode(root, uuid, isz)
    } else if i == 1 {
        encode_inode(rbm, uuid, isz)
    } else if i == 2 {
        encode_inode(rsum, uuid, isz)
    } else {
        let mut s = zeroed(isz);
        encode_free(first + i, chunk_gen, uuid, s.as_mut_slice());
        s
    }
}

/// The inodes of the root chunk: every slot initialised free, then the
/// root directory and the realtime bitmap and summary inodes.
/// The three inodes `mkfs.xfs` creates in the root chunk whose first
/// inode is `first`, and the chunk's generation number.
fn chunk_inodes(g: &Geometry, first: u64, time: Timestamp, gen: &mut Gen) -> (r: (Dinode, Dinode, Dinode, u32))
    requires
        first <= 0x4000_0000 * 32,
        encodable(time, g.features.bigtime),
    ensures
        r.3 == drawn(old(gen).0, 1),
        r.0@ == root_inode(first, chunk_flags2(g.features), time),
        r.1@ == rbm_inode(first, chunk_flags2(g.features), time, drawn(old(gen).0, 2)),
        r.2@ == rsum_inode(first, chunk_flags2(g.features), time, drawn(old(gen).0, 3)),
        inode::dinode_encodable(r.0@),
        inode::dinode_encodable(r.1@),
        inode::dinode_encodable(r.2@),
        r.0.data@.len() <= 10,
        r.1.data@.len() == 0,
        r.2.data@.len() == 0,
        final(gen).0 == advance(old(gen).0, 3),
{
    proof {
        lemma_chunk_flags2(g.features);
    }
    let ghost s0 = gen.0;
    assert(advance(s0, 0) == s0);
    // xfs_ialloc_inode_init: one generation number for the whole chunk.
    let chunk_gen = gen.next();
    assert(gen.0 == advance(s0, 1));
    let bigtime_flag: u64 = if g.features.bigtime { DIFLAG2_BIGTIME } else { 0 };
    let nrext64_flag: u64 = if g.features.nrext64 { DIFLAG2_NREXT64 } else { 0 };
    let flags2 = bigtime_flag | nrext64_flag;
    let dir = inode::empty_sf_dir(first);
    let root = Dinode {
        ino: first,
        mode: MODE_ROOT_DIR,
        format: inode::format::LOCAL,
        nlink: 2,
        size: dir.len() as u64,
        flags: 0,
        flags2,
        // xfs_icreate draws a new one; the root's is zeroed (xfsdump).
        gen: 0,
        // One for the create, one for the transaction that logged it.
        changecount: 2,
        atime: time,
        mtime: time,
        ctime: time,
        crtime: time,
        data: dir,
    };
    // xfs_rtbitmap_create: its atime is the summary's sequence counter.
    let rbm_gen = gen.next();
    assert(gen.0 == advance(s0, 2));
    let rbm = Dinode {
        ino: first + 1,
        mode: MODE_RT_FILE,
        format: inode::format::EXTENTS,
        nlink: 1,
        size: 0,
        flags: DIFLAG_NEWRTBM,
        flags2,
        gen: rbm_gen,
        changecount: 2,
        atime: Timestamp { secs: 0, nsecs: 0 },
        mtime: time,
        ctime: time,
        crtime: time,
        data: Vec::new(),
    };
    let rsum_gen = gen.next();
    assert(gen.0 == advance(s0, 3));
    let rsum = Dinode {
        ino: first + 2,
        mode: MODE_RT_FILE,
        format: inode::format::EXTENTS,
        nlink: 1,
        size: 0,
        flags: 0,
        flags2,
        gen: rsum_gen,
        changecount: 2,
        atime: time,
        mtime: time,
        ctime: time,
        crtime: time,
        data: Vec::new(),
    };
    assert(root@ =~= root_inode(first, flags2, time));
    assert(rbm@ =~= rbm_inode(first, flags2, time, rbm_gen));
    assert(rsum@ =~= rsum_inode(first, flags2, time, rsum_gen));
    (root, rbm, rsum, chunk_gen)
}

/// The inodes of the root chunk: every slot initialised free, then the
/// root directory and the realtime bitmap and summary inodes.
pub fn root_chunk(g: &Geometry, agbno: u64, uuid: &[u8; 16], time: Timestamp, gen: &mut Gen) -> (buf: Vec<u8>)
    requires
        g@.wf(),
        agbno < g.agsize,
        encodable(time, g.features.bigtime),
    ensures
        buf@ == spec_root_chunk(g@, agbno as int, uuid@, time, old(gen).0),
        buf@.len() == CHUNK_INODES * g.inodesize,
        final(gen).0 == advance(old(gen).0, 3),
{
    reveal(spec_root_chunk);
    proof {
        crate::geometry::lemma_wf_sizes(g@);
    }
    let ghost seed = gen.0;
    let isz = g.inodesize as usize;
    let first = g.ino(0, agbno, 0);
    assert(g@.ino(0, agbno as int, 0) == agbno * g.inopblock);
    assert(agbno * g.inopblock <= 0x4000_0000 * 32) by (nonlinear_arith)
        requires
            agbno < 0x4000_0000,
            g.inopblock <= 32,
    ;
    assert(first == g@.ino(0, agbno as int, 0));
    let (root, rbm, rsum, chunk_gen) = chunk_inodes(g, first, time, gen);
    let mut buf: Vec<u8> = Vec::new();
    let mut i: u64 = 0;
    while i < CHUNK_INODES
        invariant
            i <= CHUNK_INODES,
            isz == g.inodesize,
            512 <= isz <= 2048,
            first <= 0x4000_0000 * 32,
            chunk_gen == drawn(seed, 1),
            root@ == root_inode(first, chunk_flags2(g.features), time),
            rbm@ == rbm_inode(first, chunk_flags2(g.features), time, drawn(seed, 2)),
            rsum@ == rsum_inode(first, chunk_flags2(g.features), time, drawn(seed, 3)),
            inode::dinode_encodable(root@),
            inode::dinode_encodable(rbm@),
            inode::dinode_encodable(rsum@),
            root.data@.len() <= 10,
            rbm.data@.len() == 0,
            rsum.data@.len() == 0,
            buf@ == chunk_slots(g@, first, uuid@, time, seed, i as nat),
            buf@.len() == i * isz,
        decreases CHUNK_INODES - i,
    {
        let slot = encode_slot(g, i, &root, &rbm, &rsum, first, chunk_gen, uuid, time, Ghost(seed));
        push_bytes(&mut buf, slot.as_slice());
        i += 1;
        assert(buf@.len() == i * isz) by (nonlinear_arith)
            requires
                buf@.len() == (i - 1) * isz + isz,
        ;
    }
    buf
}


#[verifier::spinoff_prover]
#[verifier::rlimit(40)]
proof fn lemma_slots_prefix(g: GeometryView, first: u64, uuid: Seq<u8>, time: Timestamp, seed: u64, m: nat, n: nat)
    requires
        m <= n,
    ensures
        chunk_slots(g, first, uuid, time, seed, m).len() <= chunk_slots(g, first, uuid, time, seed, n).len(),
        chunk_slots(g, first, uuid, time, seed, n).subrange(0, chunk_slots(g, first, uuid, time, seed, m).len() as int)
            == chunk_slots(g, first, uuid, time, seed, m),
    decreases n,
{
    if m < n {
        lemma_slots_prefix(g, first, uuid, time, seed, m, (n - 1) as nat);
        let a = chunk_slots(g, first, uuid, time, seed, (n - 1) as nat);
        let b = chunk_slots(g, first, uuid, time, seed, m);
        assert(chunk_slots(g, first, uuid, time, seed, n).subrange(0, b.len() as int) =~= a.subrange(0, b.len() as int));
    } else {
        assert(chunk_slots(g, first, uuid, time, seed, n).subrange(0, chunk_slots(g, first, uuid, time, seed, n).len() as int)
            =~= chunk_slots(g, first, uuid, time, seed, n));
    }
}

/// The root inode chunk starts with the root directory's slot.
#[verifier::spinoff_prover]
#[verifier::rlimit(40)]
proof fn lemma_chunk_starts_with_root(g: GeometryView, agbno: int, uuid: Seq<u8>, time: Timestamp, seed: u64)
    requires
        g.wf(),
        uuid.len() == 16,
    ensures
        ({
            let first = g.ino(0, agbno, 0) as u64;
            let slot = dinode_slot(root_inode(first, chunk_flags2(g.features), time), uuid, g.inodesize as nat);
            let c = spec_root_chunk(g, agbno, uuid, time, seed);
            &&& slot.len() <= c.len()
            &&& c.subrange(0, slot.len() as int) == slot
        }),
{
    reveal(spec_root_chunk);
    let first = g.ino(0, agbno, 0) as u64;
    let slot = dinode_slot(root_inode(first, chunk_flags2(g.features), time), uuid, g.inodesize as nat);
    assert(chunk_slot(g, first, uuid, time, seed, 0) == slot) by {
        reveal(chunk_slot);
    }
    assert(chunk_slots(g, first, uuid, time, seed, 0) =~= Seq::<u8>::empty());
    assert(chunk_slots(g, first, uuid, time, seed, 1) =~= slot);
    lemma_slots_prefix(g, first, uuid, time, seed, 1, CHUNK_INODES as nat);
}

/// The root inode chunk starts with the root directory: a directory
/// (mode 040755) in local format, with two links (its `.` and, as the
/// root, its own `..`), whose data fork is an empty short-form directory
/// naming itself as parent and whose size is that directory's length.
#[verifier::spinoff_prover]
#[verifier::rlimit(40)]
pub proof fn lemma_root_directory(g: GeometryView, agbno: int, uuid: Seq<u8>, time: Timestamp, seed: u64)
    requires
        g.wf(),
        uuid.len() == 16,
    ensures
        ({
            let c = spec_root_chunk(g, agbno, uuid, time, seed);
            let first = g.ino(0, agbno, 0) as u64;
            let dir = spec_empty_sf_dir(first);
            &&& crate::bytes::spec_be16(c, inode::off::MODE as int) == 0o040755u16
            &&& c[inode::off::FORMAT as int] == inode::format::LOCAL
            &&& crate::bytes::spec_be32(c, inode::off::NLINK as int) == 2
            &&& crate::bytes::spec_be64(c, inode::off::SIZE as int) == dir.len()
            &&& c.subrange(CORE_SIZE as int, CORE_SIZE + dir.len()) == dir
            &&& first <= u32::MAX ==> crate::bytes::spec_be32(c, CORE_SIZE + 2) == first
        }),
{
    crate::geometry::lemma_wf_sizes(g);
    let first = g.ino(0, agbno, 0) as u64;
    let c = spec_root_chunk(g, agbno, uuid, time, seed);
    let d = root_inode(first, chunk_flags2(g.features), time);
    let dir = spec_empty_sf_dir(first);
    let isz = g.inodesize as nat;
    let slot = dinode_slot(d, uuid, isz);
    assert(dir.len() <= 10);
    lemma_chunk_starts_with_root(g, agbno, uuid, time, seed);
    inode::lemma_slot_records(d, uuid, isz);
    let n = CORE_SIZE + dir.len();
    assert forall|i: int| 0 <= i < n implies #[trigger] c[i] == slot[i] by {
        assert(c.subrange(0, slot.len() as int)[i] == c[i]);
    }
    assert(crate::bytes::spec_be16(c, 2) == crate::bytes::spec_be16(slot, 2));
    assert(c[5] == slot[5]);
    assert(crate::bytes::spec_be32(c, 16) == crate::bytes::spec_be32(slot, 16));
    assert(crate::bytes::spec_be32(c, 56) == crate::bytes::spec_be32(slot, 56));
    assert(crate::bytes::spec_be32(c, 60) == crate::bytes::spec_be32(slot, 60));
    assert(c.subrange(CORE_SIZE as int, n) =~= slot.subrange(CORE_SIZE as int, n));
    if first <= u32::MAX {
        assert(dir =~= seq![0u8, 0u8] + crate::bytes::be32_bytes(first as u32));
        assert(c.subrange(CORE_SIZE + 2, CORE_SIZE + 6) =~= crate::bytes::be32_bytes(first as u32));
        crate::bytes::lemma_read32_at(c, CORE_SIZE + 2, first as u32);
    }
}

/// The second and third inodes of the root chunk are the realtime bitmap
/// and summary: empty regular files (mode 0100000, size 0) with one link.
#[verifier::spinoff_prover]
#[verifier::rlimit(40)]
pub proof fn lemma_realtime_inodes(g: GeometryView, agbno: int, uuid: Seq<u8>, time: Timestamp, seed: u64)
    requires
        g.wf(),
        uuid.len() == 16,
    ensures
        ({
            let c = spec_root_chunk(g, agbno, uuid, time, seed);
            let isz = g.inodesize as int;
            &&& forall|k: int| 1 <= k <= 2 ==> {
                &&& #[trigger] crate::bytes::spec_be16(c, k * isz + inode::off::MODE) == 0o100000u16
                &&& crate::bytes::spec_be32(c, k * isz + inode::off::NLINK) == 1
                &&& crate::bytes::spec_be64(c, k * isz + inode::off::SIZE) == 0
            }
        }),
{
    reveal(spec_root_chunk);
    reveal(chunk_slot);
    crate::geometry::lemma_wf_sizes(g);
    let first = g.ino(0, agbno, 0) as u64;
    let f2 = chunk_flags2(g.features);
    let isz = g.inodesize as nat;
    let c = spec_root_chunk(g, agbno, uuid, time, seed);
    let d0 = root_inode(first, f2, time);
    let d1 = rbm_inode(first, f2, time, drawn(seed, 2));
    let d2 = rsum_inode(first, f2, time, drawn(seed, 3));
    assert(spec_empty_sf_dir(first).len() <= 10);
    inode::lemma_slot_records(d0, uuid, isz);
    inode::lemma_slot_records(d1, uuid, isz);
    inode::lemma_slot_records(d2, uuid, isz);
    let s0 = dinode_slot(d0, uuid, isz);
    let s1 = dinode_slot(d1, uuid, isz);
    let s2 = dinode_slot(d2, uuid, isz);
    assert(chunk_slot(g, first, uuid, time, seed, 0) == s0);
    assert(chunk_slot(g, first, uuid, time, seed, 1) == s1);
    assert(chunk_slot(g, first, uuid, time, seed, 2) == s2);
    assert(chunk_slots(g, first, uuid, time, seed, 0) =~= Seq::<u8>::empty());
    let three = chunk_slots(g, first, uuid, time, seed, 3);
    assert(chunk_slots(g, first, uuid, time, seed, 1) =~= s0);
    assert(chunk_slots(g, first, uuid, time, seed, 2) =~= s0 + s1);
    assert(three =~= s0 + s1 + s2);
    lemma_slots_prefix(g, first, uuid, time, seed, 3, CHUNK_INODES as nat);
    assert forall|i: int| 0 <= i < 3 * isz implies #[trigger] c[i] == three[i] by {
        assert(c.subrange(0, three.len() as int)[i] == c[i]);
    }
    assert forall|i: int| 0 <= i < isz implies #[trigger] c[isz + i] == s1[i] && c[2 * isz + i] == s2[i] by {
        assert(three[isz + i] == s1[i]);
        assert(three[2 * isz + i] == s2[i]);
    }
    assert forall|k: int| 1 <= k <= 2 implies {
        &&& #[trigger] crate::bytes::spec_be16(c, k * isz + inode::off::MODE) == 0o100000u16
        &&& crate::bytes::spec_be32(c, k * isz + inode::off::NLINK) == 1
        &&& crate::bytes::spec_be64(c, k * isz + inode::off::SIZE) == 0
    } by {
        let sl = if k == 1 { s1 } else { s2 };
        assert(k * isz == if k == 1 { isz as int } else { 2 * isz as int });
        assert(forall|j: int| 0 <= j < isz ==> #[trigger] c[k * isz + j] == sl[j]);
        assert(crate::bytes::spec_be16(c, k * isz + 2) == crate::bytes::spec_be16(sl, 2));
        assert(crate::bytes::spec_be32(c, k * isz + 16) == crate::bytes::spec_be32(sl, 16));
        assert(crate::bytes::spec_be32(c, k * isz + 56) == crate::bytes::spec_be32(sl, 56));
        assert(crate::bytes::spec_be32(c, k * isz + 60) == crate::bytes::spec_be32(sl, 60));
    }
}

/// The first three inodes of the root chunk carry their own numbers, the
/// chunk's first inode and the two after it, and the inode flags the
/// features call for: the big timestamp flag (8) with bigtime, the large
/// extent counter flag (16) with nrext64, no other.
#[verifier::spinoff_prover]
#[verifier::rlimit(40)]
pub proof fn lemma_first_inode_ids(g: GeometryView, agbno: int, uuid: Seq<u8>, time: Timestamp, seed: u64)
    requires
        g.wf(),
        uuid.len() == 16,
    ensures
        ({
            let c = spec_root_chunk(g, agbno, uuid, time, seed);
            let isz = g.inodesize as int;
            let first = g.ino(0, agbno, 0);
            let flags2 = (if g.features.bigtime { 8u64 } else { 0u64 }) | (if g.features.nrext64 { 16u64 } else { 0u64 });
            &&& forall|k: int| 0 <= k <= 2 ==> {
                &&& #[trigger] crate::bytes::spec_be64(c, k * isz + inode::off::INO) == ((first as u64) + k) as u64
                &&& crate::bytes::spec_be64(c, k * isz + inode::off::FLAGS2) == flags2
            }
        }),
{
    reveal(spec_root_chunk);
    reveal(chunk_slot);
    crate::geometry::lemma_wf_sizes(g);
    let first = g.ino(0, agbno, 0) as u64;
    let f2 = chunk_flags2(g.features);
    let isz = g.inodesize as nat;
    let c = spec_root_chunk(g, agbno, uuid, time, seed);
    let d0 = root_inode(first, f2, time);
    let d1 = rbm_inode(first, f2, time, drawn(seed, 2));
    let d2 = rsum_inode(first, f2, time, drawn(seed, 3));
    assert(spec_empty_sf_dir(first).len() <= 10);
    inode::lemma_slot_records(d0, uuid, isz);
    inode::lemma_slot_records(d1, uuid, isz);
    inode::lemma_slot_records(d2, uuid, isz);
    let s0 = dinode_slot(d0, uuid, isz);
    let s1 = dinode_slot(d1, uuid, isz);
    let s2 = dinode_slot(d2, uuid, isz);
    assert(chunk_slot(g, first, uuid, time, seed, 0) == s0);
    assert(chunk_slot(g, first, uuid, time, seed, 1) == s1);
    assert(chunk_slot(g, first, uuid, time, seed, 2) == s2);
    assert(chunk_slots(g, first, uuid, time, seed, 0) =~= Seq::<u8>::empty());
    let three = chunk_slots(g, first, uuid, time, seed, 3);
    assert(chunk_slots(g, first, uuid, time, seed, 1) =~= s0);
    assert(chunk_slots(g, first, uuid, time, seed, 2) =~= s0 + s1);
    assert(three =~= s0 + s1 + s2);
    lemma_slots_prefix(g, first, uuid, time, seed, 3, CHUNK_INODES as nat);
    assert forall|i: int| 0 <= i < 3 * isz implies #[trigger] c[i] == three[i] by {
        assert(c.subrange(0, three.len() as int)[i] == c[i]);
    }
    assert forall|i: int| 0 <= i < isz implies #[trigger] c[i] == s0[i] && c[isz + i] == s1[i] && c[2 * isz + i] == s2[i] by {
        assert(three[i] == s0[i]);
        assert(three[isz + i] == s1[i]);
        assert(three[2 * isz + i] == s2[i]);
    }
    assert(DIFLAG2_BIGTIME == 8u64 && DIFLAG2_NREXT64 == 16u64);
    assert forall|k: int| 0 <= k <= 2 implies {
        &&& #[trigger] crate::bytes::spec_be64(c, k * isz + inode::off::INO) == ((first as u64) + k) as u64
        &&& crate::bytes::spec_be64(c, k * isz + inode::off::FLAGS2) == f2
    } by {
        let sl = if k == 0 { s0 } else if k == 1 { s1 } else { s2 };
        assert(k * isz == if k == 0 { 0int } else if k == 1 { isz as int } else { 2 * isz as int });
        assert(forall|j: int| 0 <= j < isz ==> #[trigger] c[k * isz + j] == sl[j]);
        assert(crate::bytes::spec_be32(c, k * isz + 120) == crate::bytes::spec_be32(sl, 120));
        assert(crate::bytes::spec_be32(c, k * isz + 124) == crate::bytes::spec_be32(sl, 124));
        assert(crate::bytes::spec_be32(c, k * isz + 152) == crate::bytes::spec_be32(sl, 152));
        assert(crate::bytes::spec_be32(c, k * isz + 156) == crate::bytes::spec_be32(sl, 156));
    }
}

} // verus!
