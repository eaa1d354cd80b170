//! What `mkfs.xfs` would choose: block, sector and inode sizes, allocation
//! group count and size, the internal log's size and place, and the fixed
//! positions of every per-AG header and btree root.
//!
//! Each calculation names the xfsprogs function it reproduces (xfsprogs
//! 6.15.0, `mkfs/xfs_mkfs.c` unless noted). Where `mkfs.xfs` would need a
//! calculation this crate does not have yet — the minimum log size, which
//! is the whole transaction-reservation table — the configuration is refused
//! with [`Error::Unsupported`] rather than approximated.
use vstd::prelude::*;
use vstd::arithmetic::power2::{pow2, lemma2_to64};
use crate::error::{Error, message1, message2};

verus! {

/// `XFS_MIN_BLOCKSIZE` for a CRC (v5) filesystem.
pub const MIN_CRC_BLOCKSIZE: u32 = 1024;
/// `XFS_MAX_BLOCKSIZE`.
pub const MAX_BLOCKSIZE: u32 = 65536;
/// Largest block size whose default log this crate can size exactly: above
/// it the minimum log size (not implemented) exceeds the 64 MiB realistic
/// floor, and `mkfs.xfs` uses the minimum instead.
pub const MAX_SUPPORTED_BLOCKSIZE: u32 = 16384;
/// `XFS_MIN_SECTORSIZE`.
pub const MIN_SECTORSIZE: u32 = 512;
/// `XFS_MAX_SECTORSIZE`.
pub const MAX_SECTORSIZE: u32 = 32768;
/// `XFS_DINODE_MIN_SIZE`.
pub const DINODE_MIN_SIZE: u32 = 256;
/// `XFS_DINODE_MAX_SIZE`.
pub const DINODE_MAX_SIZE: u32 = 2048;
/// `XFS_INODE_BIG_CLUSTER_SIZE`.
pub const INODE_BIG_CLUSTER_SIZE: u32 = 8192;
/// `XFS_INODES_PER_CHUNK`.
pub const INODES_PER_CHUNK: u32 = 64;
/// `XFS_MAX_LOG_BLOCKS`.
pub const MAX_LOG_BLOCKS: u64 = 1048576;
/// `XFS_MIN_LOG_BYTES`.
pub const MIN_LOG_BYTES: u64 = 10485760;
/// `XFS_MAX_LOG_BYTES`: kept under 2^31 by a small amount.
pub const MAX_LOG_BYTES: u64 = 2136997888;
/// `XFS_AG_MIN_BYTES`: 16 MiB.
pub const AG_MIN_BYTES: u64 = 16777216;
/// `XFS_AG_MAX_BYTES`: 1 TiB.
pub const AG_MAX_BYTES: u64 = 1099511627776;
/// `NULLAGNUMBER - 1`.
pub const MAX_AGNUMBER: u64 = 0xffff_fffe;
/// `XFS_ALLOCBT_AGFL_RESERVE`.
pub const ALLOCBT_AGFL_RESERVE: u64 = 4;
/// `XFS_AGFL` header bytes on a v5 filesystem (`struct xfs_agfl`).
pub const AGFL_HEADER: u32 = 36;

/// One mebibyte.
pub const MIB: u64 = 1048576;
/// One gibibyte.
pub const GIB: u64 = 1073741824;
/// One tebibyte.
pub const TIB: u64 = 1099511627776;

/// The v5 features `mkfs.xfs` turns on or off. [`Default`] is what
/// `mkfs.xfs` 6.15 enables with no `-m`/`-i` options.
#[derive(Debug, Clone, Copy, PartialEq, Eq, Structural)]
pub struct Features {
    /// Free inode btree (`-m finobt`).
    pub finobt: bool,
    /// Reverse mapping btree (`-m rmapbt`).
    pub rmapbt: bool,
    /// Reference count btree, for reflink (`-m reflink`).
    pub reflink: bool,
    /// Inode btree block counters in the AGI (`-m inobtcount`).
    pub inobtcount: bool,
    /// Timestamps past 2038 (`-m bigtime`).
    pub bigtime: bool,
    /// 64-bit extent counters (`-i nrext64`).
    pub nrext64: bool,
    /// Sparse inode chunks (`-i sparse`).
    pub sparse: bool,
}

/// Every feature `mkfs.xfs` 6.15 enables by default: all of them.
pub open spec fn default_features() -> Features {
    Features {
        finobt: true,
        rmapbt: true,
        reflink: true,
        inobtcount: true,
        bigtime: true,
        nrext64: true,
        sparse: true,
    }
}

impl Default for Features {
    fn default() -> (f: Self)
        ensures
            f == default_features(),
    {
        Features {
            finobt: true,
            rmapbt: true,
            reflink: true,
            inobtcount: true,
            bigtime: true,
            nrext64: true,
            sparse: true,
        }
    }
}

/// A point in time as XFS stores it.
#[derive(Debug, Clone, Copy, PartialEq, Eq, Structural)]
pub struct Timestamp {
    /// Seconds since the Unix epoch.
    pub secs: i64,
    /// Nanoseconds within the second.
    pub nsecs: u32,
}

/// What the caller asks for — the `mkfs.xfs` command line. Everything left
/// `None` is chosen the way `mkfs.xfs` chooses it.
#[derive(Debug, Clone)]
pub struct Params {
    /// Filesystem size in bytes (`-d size=`). Default: the whole device.
    pub size: Option<u64>,
    /// Block size (`-b size=`). Default 4096.
    pub block_size: Option<u32>,
    /// Sector size (`-s size=`). Default: the device's physical sector.
    pub sector_size: Option<u32>,
    /// Inode size (`-i size=`). Default 512.
    pub inode_size: Option<u32>,
    /// Allocation group count (`-d agcount=`).
    pub agcount: Option<u64>,
    /// Allocation group size in bytes (`-d agsize=`).
    pub agsize: Option<u64>,
    /// Maximum percentage of space for inodes (`-i maxpct=`).
    pub imaxpct: Option<u8>,
    /// Volume label, at most 12 bytes (`-L`).
    pub label: Option<String>,
    /// Filesystem UUID (`-m uuid=`). Default: random.
    pub uuid: Option<[u8; 16]>,
    /// Creation time stamped on the root directory and the realtime
    /// inodes. Default: now.
    pub time: Option<Timestamp>,
    /// Seed for inode generation numbers, which `mkfs.xfs` draws at random.
    /// Default: random.
    pub gen_seed: Option<u64>,
    /// Feature switches.
    pub features: Features,
}

/// Parameters with nothing chosen: everything is `mkfs.xfs`'s default.
pub open spec fn is_default_params(p: Params) -> bool {
    &&& p.size is None
    &&& p.block_size is None
    &&& p.sector_size is None
    &&& p.inode_size is None
    &&& p.agcount is None
    &&& p.agsize is None
    &&& p.imaxpct is None
    &&& p.label is None
    &&& p.uuid is None
    &&& p.time is None
    &&& p.gen_seed is None
    &&& p.features == default_features()
}

impl Default for Params {
    fn default() -> (p: Self)
        ensures
            is_default_params(p),
    {
        Params::new()
    }
}

impl Params {
    /// Defaults throughout, as plain `mkfs.xfs <device>` would.
    pub fn new() -> (p: Self)
        ensures
            is_default_params(p),
    {
        Params {
            size: None,
            block_size: None,
            sector_size: None,
            inode_size: None,
            agcount: None,
            agsize: None,
            imaxpct: None,
            label: None,
            uuid: None,
            time: None,
            gen_seed: None,
            features: Features::default(),
        }
    }

    /// Set the filesystem size in bytes.
    pub fn size(self, bytes: u64) -> (p: Self)
        ensures
            p == (Params { size: Some(bytes), ..self }),
    {
        let mut p = self;
        p.size = Some(bytes);
        p
    }

    /// Set the block size.
    pub fn block_size(self, bytes: u32) -> (p: Self)
        ensures
            p == (Params { block_size: Some(bytes), ..self }),
    {
        let mut p = self;
        p.block_size = Some(bytes);
        p
    }

    /// Set the sector size.
    pub fn sector_size(self, bytes: u32) -> (p: Self)
        ensures
            p == (Params { sector_size: Some(bytes), ..self }),
    {
        let mut p = self;
        p.sector_size = Some(bytes);
        p
    }

    /// Set the inode size.
    pub fn inode_size(self, bytes: u32) -> (p: Self)
        ensures
            p == (Params { inode_size: Some(bytes), ..self }),
    {
        let mut p = self;
        p.inode_size = Some(bytes);
        p
    }

    /// Set the allocation group count.
    pub fn agcount(self, n: u64) -> (p: Self)
        ensures
            p == (Params { agcount: Some(n), ..self }),
    {
        let mut p = self;
        p.agcount = Some(n);
        p
    }

    /// Set the volume label.
    pub fn label(self, label: &str) -> (p: Self)
        ensures
            p.label matches Some(l) && l@ == label@,
            p == (Params { label: p.label, ..self }),
    {
        let mut p = self;
        p.label = Some(label.to_owned());
        p
    }

    /// Pin the UUID.
    pub fn uuid(self, uuid: [u8; 16]) -> (p: Self)
        ensures
            p == (Params { uuid: Some(uuid), ..self }),
    {
        let mut p = self;
        p.uuid = Some(uuid);
        p
    }

    /// Pin the creation time.
    pub fn time(self, secs: i64, nsecs: u32) -> (p: Self)
        ensures
            p == (Params { time: Some(Timestamp { secs, nsecs }), ..self }),
    {
        let mut p = self;
        p.time = Some(Timestamp { secs, nsecs });
        p
    }

    /// Pin the inode generation numbers.
    pub fn gen_seed(self, seed: u64) -> (p: Self)
        ensures
            p == (Params { gen_seed: Some(seed), ..self }),
    {
        let mut p = self;
        p.gen_seed = Some(seed);
        p
    }

    /// Set the feature switches.
    pub fn features(self, features: Features) -> (p: Self)
        ensures
            p == (Params { features, ..self }),
    {
        let mut p = self;
        p.features = features;
        p
    }
}


/// Why a configuration is refused.
#[derive(Debug, Clone, Copy, PartialEq, Eq, Structural)]
pub enum Refusal {
    /// [`Error::InvalidParams`]: `mkfs.xfs` would refuse it too.
    Invalid,
    /// [`Error::Unsupported`]: `mkfs.xfs` accepts it, this crate does not yet.
    Unsupported,
}

/// Every number the formatter needs, fixed before a byte is written.
#[derive(Debug, Clone, Copy, PartialEq, Eq)]
pub struct Geometry {
    /// Block size in bytes.
    pub blocksize: u32,
    /// log2 of the block size.
    pub blocklog: u8,
    /// Sector size in bytes.
    pub sectsize: u32,
    /// log2 of the sector size.
    pub sectlog: u8,
    /// Log sector size (the data sector size, for an internal log).
    pub lsectsize: u32,
    /// log2 of the log sector size.
    pub lsectlog: u8,
    /// Inode size in bytes.
    pub inodesize: u32,
    /// log2 of the inode size.
    pub inodelog: u8,
    /// Inodes per block.
    pub inopblock: u32,
    /// log2 of inodes per block.
    pub inopblog: u8,
    /// log2 of the directory block size.
    pub dirblocklog: u8,
    /// Data blocks.
    pub dblocks: u64,
    /// Blocks per allocation group (all but perhaps the last).
    pub agsize: u64,
    /// Allocation groups.
    pub agcount: u64,
    /// log2 of `agsize`, rounded up: the shift in block and inode numbers.
    pub agblklog: u8,
    /// Maximum percentage of space for inodes.
    pub imaxpct: u8,
    /// Log blocks.
    pub logblocks: u64,
    /// The AG holding the internal log.
    pub logagno: u64,
    /// The log's first block within its AG.
    pub log_agbno: u64,
    /// Features.
    pub features: Features,
    /// Volume label bytes (zero padded).
    pub label: [u8; 12],
}

/// The numbers of a [`Geometry`], the label as a sequence.
#[verifier::ext_equal]
pub struct GeometryView {
    pub blocksize: u32,
    pub blocklog: u8,
    pub sectsize: u32,
    pub sectlog: u8,
    pub lsectsize: u32,
    pub lsectlog: u8,
    pub inodesize: u32,
    pub inodelog: u8,
    pub inopblock: u32,
    pub inopblog: u8,
    pub dirblocklog: u8,
    pub dblocks: u64,
    pub agsize: u64,
    pub agcount: u64,
    pub agblklog: u8,
    pub imaxpct: u8,
    pub logblocks: u64,
    pub logagno: u64,
    pub log_agbno: u64,
    pub features: Features,
    pub label: Seq<u8>,
}

impl View for Geometry {
    type V = GeometryView;

    open spec fn view(&self) -> GeometryView {
        GeometryView {
            blocksize: self.blocksize,
            blocklog: self.blocklog,
            sectsize: self.sectsize,
            sectlog: self.sectlog,
            lsectsize: self.lsectsize,
            lsectlog: self.lsectlog,
            inodesize: self.inodesize,
            inodelog: self.inodelog,
            inopblock: self.inopblock,
            inopblog: self.inopblog,
            dirblocklog: self.dirblocklog,
            dblocks: self.dblocks,
            agsize: self.agsize,
            agcount: self.agcount,
            agblklog: self.agblklog,
            imaxpct: self.imaxpct,
            logblocks: self.logblocks,
            logagno: self.logagno,
            log_agbno: self.log_agbno,
            features: self.features,
            label: self.label@,
        }
    }
}

/// `v` is a power of two.
pub open spec fn power_of_two(v: int) -> bool
    decreases v,
{
    if v <= 0 {
        false
    } else if v == 1 {
        true
    } else {
        v % 2 == 0 && power_of_two(v / 2)
    }
}

/// `n / d`, rounded up.
pub open spec fn ceil_div(n: int, d: int) -> int {
    n / d + if n % d != 0 { 1int } else { 0int }
}

/// The larger of two numbers.
pub open spec fn max_of(a: int, b: int) -> int {
    if a >= b { a } else { b }
}

/// The smaller of two numbers.
pub open spec fn min_of(a: int, b: int) -> int {
    if a <= b { a } else { b }
}

/// `XFS_AG_MIN_BLOCKS`.
pub open spec fn ag_min_blocks_spec(blocklog: u8) -> u64 {
    AG_MIN_BYTES >> (blocklog as u64)
}

/// `XFS_AG_MAX_BLOCKS`.
pub open spec fn ag_max_blocks_spec(blocklog: u8) -> u64 {
    (AG_MAX_BYTES - 1) as u64 >> (blocklog as u64)
}

/// The AG size `calc_default_ag_geometry` picks for `dblocks` blocks.
pub open spec fn default_ag_blocks(blocklog: u8, dblocks: u64, multidisk: bool) -> u64 {
    let bl = blocklog as u64;
    let max = ag_max_blocks_spec(blocklog);
    if dblocks >= ((32 * TIB) as u64) >> bl {
        max
    } else if !multidisk && dblocks >= ((4 * TIB) as u64) >> bl {
        max
    } else {
        let shift: u64 = if !multidisk && dblocks >= ((128 * MIB) as u64) >> bl {
            2
        } else {
            (5 - (if dblocks <= ((512 * GIB) as u64) >> bl { 1int } else { 0 }) - (if dblocks <= ((8 * GIB) as u64) >> bl {
                1int
            } else {
                0
            }) - (if dblocks < ((128 * MIB) as u64) >> bl { 1int } else { 0 }) - (if dblocks < ((64 * MIB) as u64) >> bl {
                1int
            } else {
                0
            }) - (if dblocks < ((32 * MIB) as u64) >> bl { 1int } else { 0 })) as u64
        };
        let b = dblocks >> shift;
        if dblocks & (((1u64 << shift) - 1) as u64) != 0 && b < max {
            (b + 1) as u64
        } else {
            b
        }
    }
}

/// `calc_default_ag_geometry`: AG size and count.
pub open spec fn default_ag_geometry_spec(blocklog: u8, dblocks: u64, multidisk: bool) -> (u64, u64) {
    let blocks = default_ag_blocks(blocklog, dblocks, multidisk);
    (blocks, ceil_div(dblocks as int, blocks as int) as u64)
}

/// The smallest `l` with `2^l >= i`.
pub open spec fn is_log2_roundup(i: int, l: nat) -> bool {
    &&& pow2(l) >= i
    &&& (l == 0 || pow2((l - 1) as nat) < i)
}

impl GeometryView {
    /// `XFS_AGFL_BLOCK`: blocks taken by the four header sectors.
    pub open spec fn header_blocks(self) -> int {
        ceil_div(4 * self.sectsize, self.blocksize as int)
    }

    /// `XFS_BNO_BLOCK`.
    pub open spec fn bno_block(self) -> int {
        self.header_blocks()
    }

    /// `XFS_CNT_BLOCK`.
    pub open spec fn cnt_block(self) -> int {
        self.header_blocks() + 1
    }

    /// `XFS_IBT_BLOCK`.
    pub open spec fn ibt_block(self) -> int {
        self.header_blocks() + 2
    }

    /// `XFS_FIBT_BLOCK`.
    pub open spec fn fibt_block(self) -> int {
        self.header_blocks() + 3
    }

    /// `XFS_RMAP_BLOCK`.
    pub open spec fn rmap_block(self) -> int {
        if self.features.finobt {
            self.fibt_block() + 1
        } else {
            self.ibt_block() + 1
        }
    }

    /// `xfs_refc_block`.
    pub open spec fn refc_block(self) -> int {
        if self.features.rmapbt {
            self.rmap_block() + 1
        } else if self.features.finobt {
            self.fibt_block() + 1
        } else {
            self.ibt_block() + 1
        }
    }

    /// `xfs_prealloc_blocks`.
    pub open spec fn prealloc_blocks(self) -> int {
        if self.features.reflink {
            self.refc_block() + 1
        } else if self.features.rmapbt {
            self.rmap_block() + 1
        } else if self.features.finobt {
            self.fibt_block() + 1
        } else {
            self.ibt_block() + 1
        }
    }

    /// `xfs_alloc_ag_max_usable`.
    pub open spec fn ag_max_usable(self) -> int {
        self.agsize - (self.header_blocks() + ALLOCBT_AGFL_RESERVE + 3 + (if self.features.finobt {
            1int
        } else {
            0
        }) + (if self.features.rmapbt { 1int } else { 0 }) + (if self.features.reflink {
            1int
        } else {
            0
        }))
    }

    /// `xfs_agfl_size`.
    pub open spec fn agfl_size(self) -> int {
        (self.sectsize - AGFL_HEADER) / 4
    }

    /// `xfs_alloc_min_freelist` for one-level btrees.
    pub open spec fn min_freelist(self) -> int {
        4 + if self.features.rmapbt { 2int } else { 0 }
    }

    /// Blocks in an inode chunk.
    pub open spec fn chunk_blocks(self) -> int {
        INODES_PER_CHUNK * self.inodesize / (self.blocksize as int)
    }

    /// Inode cluster alignment in blocks.
    pub open spec fn cluster_align(self) -> int {
        INODE_BIG_CLUSTER_SIZE * (self.inodesize / DINODE_MIN_SIZE) / (self.blocksize as int)
    }

    /// `sb_inoalignmt`.
    pub open spec fn inoalignmt(self) -> int {
        if self.features.sparse {
            self.chunk_blocks()
        } else {
            self.cluster_align()
        }
    }

    /// `sb_spino_align`.
    pub open spec fn spino_align(self) -> int {
        if self.features.sparse {
            self.cluster_align()
        } else {
            0
        }
    }

    /// Blocks in allocation group `agno` — the last may be short.
    pub open spec fn ag_blocks(self, agno: int) -> int {
        if agno == self.agcount - 1 {
            self.dblocks - agno * self.agsize
        } else {
            self.agsize as int
        }
    }

    /// Filesystem block number: the AG number above `agblklog` bits.
    pub open spec fn agb_to_fsb(self, agno: int, agbno: int) -> int {
        agno * pow2(self.agblklog as nat) + agbno
    }

    /// Byte offset of block `agbno` in AG `agno`.
    pub open spec fn agb_to_byte(self, agno: int, agbno: int) -> int {
        (agno * self.agsize + agbno) * self.blocksize
    }

    /// Disk address (512-byte units) of block `agbno` in AG `agno`.
    pub open spec fn agb_to_daddr(self, agno: int, agbno: int) -> int {
        (agno * self.agsize + agbno) * (self.blocksize / 512)
    }

    /// Inode number of the inode at `agbno`, slot `slot`, in AG `agno`.
    pub open spec fn ino(self, agno: int, agbno: int, slot: int) -> int {
        agno * pow2((self.agblklog + self.inopblog) as nat) + agbno * self.inopblock + slot
    }

    /// `sb_logstart`.
    pub open spec fn logstart(self) -> int {
        self.agb_to_fsb(self.logagno as int, self.log_agbno as int)
    }

    /// `sb_logsunit`: a log sector over 512 bytes gets a one-block log
    /// stripe unit; a v2 log with none records 1.
    pub open spec fn logsunit(self) -> u32 {
        if self.lsectsize > 512 {
            self.blocksize
        } else {
            1
        }
    }

    /// `sb_logstart` as the superblock holds it.
    pub open spec fn logstart_field(self) -> u64 {
        (self.logagno << (self.agblklog as u64)) | self.log_agbno
    }

    /// `xfs_ialloc_calc_rootino`: where the root inode chunk goes in AG 0.
    pub open spec fn root_chunk_agbno(self) -> int {
        let f = self.features;
        let first = self.header_blocks() + 2 + 1 + self.min_freelist() + (if f.finobt {
            1int
        } else {
            0
        }) + (if f.rmapbt { 1int } else { 0 }) + (if f.reflink { 1int } else { 0 }) + (if self.logagno
            == 0 {
            self.logblocks as int
        } else {
            0
        });
        let align = self.inoalignmt();
        if align > 1 {
            ceil_div(first, align) * align
        } else {
            first
        }
    }

    /// The root directory's inode number.
    pub open spec fn rootino(self) -> int {
        self.ino(0, self.root_chunk_agbno(), 0)
    }

    /// Free blocks before the root inode chunk is allocated.
    pub open spec fn initial_fdblocks(self) -> int {
        self.dblocks - self.agcount * self.prealloc_blocks() - self.logblocks
    }

    /// What every geometry [`Geometry::compute`] returns satisfies.
    pub open spec fn wf(self) -> bool {
        &&& 10 <= self.blocklog <= 14
        &&& self.blocksize == pow2(self.blocklog as nat)
        &&& 9 <= self.sectlog <= self.blocklog
        &&& self.sectsize == pow2(self.sectlog as nat)
        &&& self.lsectsize == self.sectsize
        &&& self.lsectlog == self.sectlog
        &&& 9 <= self.inodelog <= 11
        &&& self.inodelog < self.blocklog
        &&& self.inodesize == pow2(self.inodelog as nat)
        &&& self.inopblog == self.blocklog - self.inodelog
        &&& self.inopblock == pow2(self.inopblog as nat)
        &&& self.dirblocklog == (if self.blocksize < 4096 { 12 } else { self.blocklog })
        &&& ag_min_blocks_spec(self.blocklog) <= self.agsize <= ag_max_blocks_spec(self.blocklog)
        &&& self.agsize <= self.dblocks
        &&& 2 <= self.agcount <= MAX_AGNUMBER
        &&& self.dblocks <= self.agcount * self.agsize
        &&& (self.dblocks % self.agsize == 0 || self.dblocks % self.agsize >= ag_min_blocks_spec(
            self.blocklog,
        ))
        &&& self.dblocks * self.blocksize <= u64::MAX
        &&& is_log2_roundup(self.agsize as int, self.agblklog as nat)
        &&& self.imaxpct <= 100
        &&& (((64 * MIB) as u64) >> (self.blocklog as u64)) <= self.logblocks <= MAX_LOG_BLOCKS
        &&& self.logblocks <= self.ag_max_usable() - 1
        &&& self.logagno == self.agcount / 2
        &&& self.log_agbno == self.prealloc_blocks()
        &&& self.features.inobtcount ==> self.features.finobt
        &&& self.label.len() == 12
    }
}

/// The block size asked for, or 4096.
pub open spec fn chosen_blocksize(p: Params) -> u32 {
    match p.block_size {
        Some(b) => b,
        None => 4096,
    }
}

/// `validate_blocksize`.
pub open spec fn blocksize_refusal(bs: u32) -> Option<Refusal> {
    if !power_of_two(bs as int) || bs < 512 || bs > MAX_BLOCKSIZE {
        Some(Refusal::Invalid)
    } else if bs < MIN_CRC_BLOCKSIZE {
        Some(Refusal::Invalid)
    } else if bs > MAX_SUPPORTED_BLOCKSIZE {
        Some(Refusal::Unsupported)
    } else {
        None
    }
}

/// The device's logical sector, at least 512.
pub open spec fn logical_of(logical_sector: u32) -> u32 {
    if logical_sector >= MIN_SECTORSIZE { logical_sector } else { MIN_SECTORSIZE }
}

/// `validate_sectorsize`: the sector size asked for, or the one the
/// device's physical sector gives.
pub open spec fn chosen_sectsize(p: Params, bs: u32, logical_sector: u32, physical_sector: u32) -> u32 {
    let logical = logical_of(logical_sector);
    match p.sector_size {
        Some(s) => s,
        None => {
            let ph0 = if physical_sector >= logical { physical_sector } else { logical };
            let ph = if ph0 > MAX_SECTORSIZE { logical } else { ph0 };
            if bs < ph && bs >= logical { logical } else { ph }
        },
    }
}

/// Whether `validate_sectorsize` refuses the sector size.
pub open spec fn sectsize_refused(ss: u32, bs: u32, logical_sector: u32) -> bool {
    ||| !power_of_two(ss as int)
    ||| ss < MIN_SECTORSIZE
    ||| ss > MAX_SECTORSIZE
    ||| bs < ss
    ||| ss < logical_of(logical_sector)
}

/// The inode size asked for, or 512.
pub open spec fn chosen_inodesize(p: Params) -> u32 {
    match p.inode_size {
        Some(i) => i,
        None => 512,
    }
}

/// Whether `validate_inodesize` refuses the inode size.
pub open spec fn inodesize_refused(isz: u32, bs: u32) -> bool {
    ||| !power_of_two(isz as int)
    ||| isz < 512
    ||| isz > DINODE_MAX_SIZE
    ||| isz > bs / 2
}

/// `validate_datadev`: the data blocks, or why there cannot be that many.
pub open spec fn chosen_dblocks(p: Params, device_size: u64, blocklog: u8) -> Option<u64> {
    let device_blocks = device_size >> (blocklog as u64);
    let d = match p.size {
        Some(bytes) => {
            let b = bytes >> (blocklog as u64);
            if b > device_blocks { None } else { Some(b) }
        },
        None => Some(device_blocks),
    };
    match d {
        Some(b) => if b < ag_min_blocks_spec(blocklog) { None } else { Some(b) },
        None => None,
    }
}

/// `calculate_initial_ag_geometry` (without the concurrency path): AG size
/// and count, or `None` where the request is refused.
pub open spec fn chosen_ag_geometry(p: Params, bs: u32, blocklog: u8, dblocks: u64) -> Option<(u64, u64)> {
    match p.agsize {
        Some(bytes) => {
            if bytes % (bs as u64) != 0 {
                None
            } else {
                let s = bytes / (bs as u64);
                if s == 0 { None } else { Some((s, ceil_div(dblocks as int, s as int) as u64)) }
            }
        },
        None => match p.agcount {
            Some(n) => if n == 0 {
                None
            } else {
                Some((ceil_div(dblocks as int, n as int) as u64, n))
            },
            None => Some(default_ag_geometry_spec(blocklog, dblocks, false)),
        },
    }
}

/// `align_ag_geometry` with no stripe unit: data blocks and AG count once a
/// last AG too small to be one is dropped, or `None` where an AG count was
/// asked for and that last AG would be too small.
pub open spec fn aligned_ag_geometry(p: Params, blocklog: u8, dblocks: u64, agsize: u64, agcount: u64) -> Option<(u64, u64)> {
    if dblocks % agsize != 0 && dblocks % agsize < ag_min_blocks_spec(blocklog) {
        if p.agcount is Some {
            None
        } else {
            Some((((agcount - 1) * agsize) as u64, (agcount - 1) as u64))
        }
    } else {
        Some((dblocks, agcount))
    }
}

/// `validate_ag_geometry`.
pub open spec fn ag_geometry_refused(blocklog: u8, agsize: u64, agcount: u64, dblocks: u64) -> bool {
    ||| agsize < ag_min_blocks_spec(blocklog)
    ||| agsize > ag_max_blocks_spec(blocklog)
    ||| agsize > dblocks
    ||| agcount > MAX_AGNUMBER
}

/// `calculate_imaxpct`.
pub open spec fn chosen_imaxpct(p: Params, blocklog: u8, dblocks: u64) -> Option<u8> {
    let bl = blocklog as u64;
    match p.imaxpct {
        Some(x) => if x > 100 { None } else { Some(x) },
        None => Some(
            if dblocks < (TIB >> bl) {
                25
            } else if dblocks < ((50 * TIB) as u64) >> bl {
                5
            } else {
                1
            },
        ),
    }
}

/// The label's bytes, zero padded to 12, or `None` if it is longer.
pub open spec fn chosen_label(p: Params) -> Option<Seq<u8>> {
    match p.label {
        Some(l) => {
            let b = vstd::utf8::encode_utf8(l@);
            if b.len() > 12 {
                None
            } else {
                Some(b + Seq::new((12 - b.len()) as nat, |i: int| 0u8))
            }
        },
        None => Some(Seq::new(12, |i: int| 0u8)),
    }
}

/// `calculate_log_size` for an internal log with no size given, on a
/// geometry whose log is not placed yet.
pub open spec fn placed_log(g: GeometryView) -> Result<GeometryView, Refusal> {
    let bl = g.blocklog as u64;
    if g.dblocks < ((300 * MIB) as u64) >> bl {
        Err(Refusal::Unsupported)
    } else {
        let max_logblocks = g.ag_max_usable() - 1;
        let l0 = ((g.dblocks << bl) / 2048) >> bl;
        let l1 = max_of(l0 as int, (((64 * MIB) as u64) >> bl) as int);
        let l2 = min_of(l1, max_logblocks);
        let l3 = min_of(l2, MAX_LOG_BLOCKS as int);
        let l4 = if ((l3 as u64) << bl) > MAX_LOG_BYTES { (MAX_LOG_BYTES >> bl) as int } else { l3 };
        if l4 > g.agsize - g.prealloc_blocks() {
            Err(Refusal::Invalid)
        } else {
            let logagno = g.agcount / 2;
            let ichunk = ((INODES_PER_CHUNK * g.inodesize) as u64) >> bl;
            let l5 = if logagno == 0 { min_of(l4, max_logblocks - ichunk * 4) } else { l4 };
            Ok(
                GeometryView {
                    logblocks: l5 as u64,
                    logagno: logagno as u64,
                    log_agbno: g.prealloc_blocks() as u64,
                    ..g
                },
            )
        }
    }
}

/// `validate_supported`: what `mkfs.xfs` refuses without `--unsupported`.
pub open spec fn supported(g: GeometryView) -> bool {
    let bl = g.blocklog as u64;
    &&& g.dblocks >= ((300 * MIB) as u64) >> bl
    &&& g.logblocks >= ((64 * MIB) as u64) >> bl
    &&& g.agcount >= 2
}

/// The binary logarithm of a power of two.
pub open spec fn log2(v: int) -> nat
    decreases v,
{
    if v <= 1 {
        0
    } else {
        1 + log2(v / 2)
    }
}

/// Block, sector and inode sizes `mkfs.xfs` settles on, or why it refuses.
pub open spec fn spec_sizes(p: Params, logical_sector: u32, physical_sector: u32) -> Result<(u32, u32, u32), Refusal> {
    let f = p.features;
    let bs = chosen_blocksize(p);
    let ss = chosen_sectsize(p, bs, logical_sector, physical_sector);
    let isz = chosen_inodesize(p);
    if f.inobtcount && !f.finobt {
        Err(Refusal::Invalid)
    } else if blocksize_refusal(bs) is Some {
        Err(blocksize_refusal(bs)->0)
    } else if sectsize_refused(ss, bs, logical_sector) {
        Err(Refusal::Invalid)
    } else if inodesize_refused(isz, bs) {
        Err(Refusal::Invalid)
    } else {
        Ok((bs, ss, isz))
    }
}

/// Data blocks, AG size and AG count, or why they are refused.
pub open spec fn spec_ag_layout(p: Params, device_size: u64, bs: u32) -> Result<(u64, u64, u64), Refusal> {
    let blocklog = log2(bs as int) as u8;
    match chosen_dblocks(p, device_size, blocklog) {
        None => Err(Refusal::Invalid),
        Some(dblocks0) => match chosen_ag_geometry(p, bs, blocklog, dblocks0) {
            None => Err(Refusal::Invalid),
            Some((agsize, agcount0)) => match aligned_ag_geometry(p, blocklog, dblocks0, agsize, agcount0) {
                None => Err(Refusal::Invalid),
                Some((dblocks, agcount)) => if ag_geometry_refused(blocklog, agsize, agcount, dblocks) {
                    Err(Refusal::Invalid)
                } else {
                    Ok((dblocks, agsize, agcount))
                },
            },
        },
    }
}

/// The geometry before the log is placed.
pub open spec fn unplaced(p: Params, bs: u32, ss: u32, isz: u32, dblocks: u64, agsize: u64, agcount: u64, imaxpct: u8, label: Seq<u8>) -> GeometryView {
    let blocklog = log2(bs as int) as u8;
    let sectlog = log2(ss as int) as u8;
    let inodelog = log2(isz as int) as u8;
    GeometryView {
        blocksize: bs,
        blocklog,
        sectsize: ss,
        sectlog,
        lsectsize: ss,
        lsectlog: sectlog,
        inodesize: isz,
        inodelog,
        inopblock: bs / isz,
        inopblog: (blocklog - inodelog) as u8,
        dirblocklog: if bs < 4096 { 12 } else { blocklog },
        dblocks,
        agsize,
        agcount,
        agblklog: log2_roundup_spec(agsize as int),
        imaxpct,
        logblocks: 0,
        logagno: 0,
        log_agbno: 0,
        features: p.features,
        label,
    }
}

/// The geometry `mkfs.xfs` chooses for `p` on a device of `device_size`
/// bytes with the given logical and physical sectors, or why it refuses.
#[verifier::opaque]
pub open spec fn spec_compute(p: Params, device_size: u64, logical_sector: u32, physical_sector: u32) -> Result<GeometryView, Refusal> {
    match spec_sizes(p, logical_sector, physical_sector) {
        Err(e) => Err(e),
        Ok((bs, ss, isz)) => match spec_ag_layout(p, device_size, bs) {
            Err(e) => Err(e),
            Ok((dblocks, agsize, agcount)) => {
                let blocklog = log2(bs as int) as u8;
                match (chosen_imaxpct(p, blocklog, dblocks), chosen_label(p)) {
                    (None, _) => Err(Refusal::Invalid),
                    (_, None) => Err(Refusal::Invalid),
                    (Some(imaxpct), Some(label)) => match placed_log(
                        unplaced(p, bs, ss, isz, dblocks, agsize, agcount, imaxpct, label),
                    ) {
                        Err(e) => Err(e),
                        Ok(g) => if supported(g) {
                            Ok(g)
                        } else {
                            Err(Refusal::Invalid)
                        },
                    },
                }
            },
        },
    }
}

/// `log2_roundup` (libfrog): the smallest `l` with `1 << l >= i`.
pub open spec fn log2_roundup_spec(i: int) -> u8 {
    log2_roundup_from(i, 0) as u8
}

/// The smallest `l >= from` with `2^l >= i`.
pub open spec fn log2_roundup_from(i: int, from: nat) -> nat
    decreases 64 - from,
{
    if from >= 64 || pow2(from) >= i {
        from
    } else {
        log2_roundup_from(i, from + 1)
    }
}


/// The refusal an error stands for, if it is one.
pub open spec fn refusal_of(e: Error) -> Option<Refusal> {
    match e {
        Error::InvalidParams(_) => Some(Refusal::Invalid),
        Error::Unsupported(_) => Some(Refusal::Unsupported),
        _ => None,
    }
}

proof fn lemma_log2_pow2(v: int)
    requires
        power_of_two(v),
    ensures
        pow2(log2(v)) == v,
    decreases v,
{
    if v > 1 {
        lemma_log2_pow2(v / 2);
        vstd::arithmetic::power2::lemma_pow2_unfold(log2(v));
    } else {
        lemma2_to64();
    }
}

proof fn lemma_log2_mono(a: int, b: int)
    requires
        power_of_two(a),
        power_of_two(b),
        a <= b,
    ensures
        log2(a) <= log2(b),
    decreases b,
{
    if a > 1 {
        lemma_log2_mono(a / 2, b / 2);
    }
}

proof fn lemma_log2_strict(a: int, b: int)
    requires
        power_of_two(a),
        power_of_two(b),
        a < b,
    ensures
        log2(a) < log2(b),
    decreases b,
{
    if a > 1 {
        lemma_log2_strict(a / 2, b / 2);
    }
}

/// Whether `v` is a power of two.
pub(crate) fn is_power_of_two(v: u32) -> (r: bool)
    ensures
        r == power_of_two(v as int),
{
    if v == 0 {
        return false;
    }
    let mut x = v;
    while x > 1 && x % 2 == 0
        invariant
            x >= 1,
            power_of_two(x as int) == power_of_two(v as int),
        decreases x,
    {
        x = x / 2;
    }
    x == 1
}

/// log2 of a power of two.
fn pow2_log(v: u32) -> (r: u8)
    requires
        power_of_two(v as int),
    ensures
        r as nat == log2(v as int),
        pow2(r as nat) == v,
{
    proof {
        lemma2_to64();
        lemma_log2_bound(v as int, 32);
    }
    let mut x = v;
    let mut l: u8 = 0;
    while x > 1
        invariant
            x >= 1,
            power_of_two(x as int),
            l + log2(x as int) == log2(v as int),
            l <= 32,
            log2(v as int) < 32,
        decreases x,
    {
        x = x / 2;
        l = l + 1;
    }
    proof {
        lemma_log2_pow2(v as int);
    }
    l
}

proof fn lemma_log2_bound(v: int, k: nat)
    requires
        1 <= v < pow2(k),
    ensures
        log2(v) < k,
    decreases k,
{
    lemma2_to64();
    if k > 0 && v > 1 {
        vstd::arithmetic::power2::lemma_pow2_unfold(k);
        lemma_log2_bound(v / 2, (k - 1) as nat);
    }
}


/// `n / d`, rounded up.
fn div_ceil(n: u64, d: u64) -> (r: u64)
    requires
        d > 0,
    ensures
        r == ceil_div(n as int, d as int),
{
    if n % d != 0 {
        assert(d >= 2);
        assert(n / d < 0xffff_ffff_ffff_ffffu64) by (nonlinear_arith)
            requires
                d >= 2,
                n <= 0xffff_ffff_ffff_ffffu64,
        ;
        n / d + 1
    } else {
        n / d
    }
}

proof fn lemma_ceil_div_mul(n: int, d: int)
    requires
        n >= 0,
        d > 0,
    ensures
        ceil_div(n, d) * d >= n,
        ceil_div(n, d) * d - d < n,
        n % d != 0 ==> (ceil_div(n, d) - 1) * d == n / d * d,
        n / d * d <= n,
{
    vstd::arithmetic::div_mod::lemma_fundamental_div_mod(n, d);
    vstd::arithmetic::mul::lemma_mul_is_commutative(d, n / d);
    assert(0 <= n % d < d) by {
        vstd::arithmetic::div_mod::lemma_mod_bound(n, d);
    }
    if n % d != 0 {
        assert((n / d + 1) * d == n / d * d + d) by (nonlinear_arith);
    }
}

/// `log2_roundup` (libfrog): the smallest `l` with `1 << l >= i`.
pub fn log2_roundup(i: u64) -> (l: u8)
    requires
        i <= 0x8000_0000_0000_0000u64,
    ensures
        l == log2_roundup_spec(i as int),
        is_log2_roundup(i as int, l as nat),
        l <= 63,
{
    proof {
        lemma2_to64();
        vstd::arithmetic::power2::lemma2_to64_rest();
    }
    let mut l: u8 = 0;
    let mut p: u64 = 1;
    while p < i
        invariant
            l <= 63,
            p == pow2(l as nat),
            i <= 0x8000_0000_0000_0000u64,
            pow2(63) == 0x8000_0000_0000_0000u64,
            log2_roundup_from(i as int, l as nat) == log2_roundup_from(i as int, 0),
            l == 0 || pow2((l - 1) as nat) < i,
        decreases 63 - l,
    {
        if l >= 63 {
            proof {
                if l > 63 {
                    vstd::arithmetic::power2::lemma_pow2_strictly_increases(63, l as nat);
                }
            }
            assert(false);
        }
        proof {
            vstd::arithmetic::power2::lemma_pow2_unfold((l + 1) as nat);
        }
        p = p * 2;
        l = l + 1;
    }
    l
}

/// `XFS_AG_MIN_BLOCKS`.
pub fn ag_min_blocks(blocklog: u8) -> (r: u64)
    requires
        blocklog < 64,
    ensures
        r == ag_min_blocks_spec(blocklog),
{
    AG_MIN_BYTES >> (blocklog as u64)
}

/// `XFS_AG_MAX_BLOCKS`.
pub fn ag_max_blocks(blocklog: u8) -> (r: u64)
    requires
        blocklog < 64,
    ensures
        r == ag_max_blocks_spec(blocklog),
{
    (AG_MAX_BYTES - 1) >> (blocklog as u64)
}

/// `calc_default_ag_geometry` (libxfs/topology.c): AG size and count for a
/// device of `dblocks` blocks. `multidisk` is a striped device; this crate
/// does not probe stripes yet, so the formatter passes `false`.
pub fn default_ag_geometry(blocklog: u8, dblocks: u64, multidisk: bool) -> (r: (u64, u64))
    requires
        blocklog < 40,
        dblocks > 0,
    ensures
        r == default_ag_geometry_spec(blocklog, dblocks, multidisk),
        r.0 > 0,
        r.1 == ceil_div(dblocks as int, r.0 as int),
{
    let bl = blocklog as u64;
    let max = ag_max_blocks(blocklog);
    assert(max > 0) by (bit_vector)
        requires
            bl < 40,
            max == 1099511627775u64 >> bl,
    ;
    let blocks = if dblocks >= (32 * TIB) >> bl {
        max
    } else if !multidisk && dblocks >= (4 * TIB) >> bl {
        max
    } else {
        let shift: u64 = if !multidisk && dblocks >= (128 * MIB) >> bl {
            2
        } else {
            let mut s: u64 = 5;
            if dblocks <= (512 * GIB) >> bl {
                s -= 1;
            }
            if dblocks <= (8 * GIB) >> bl {
                s -= 1;
            }
            if dblocks < (128 * MIB) >> bl {
                s -= 1;
            }
            if dblocks < (64 * MIB) >> bl {
                s -= 1;
            }
            if dblocks < (32 * MIB) >> bl {
                s -= 1;
            }
            s
        };
        assert(((1u64 << shift) - 1) as u64 == (1u64 << shift) - 1) by (bit_vector)
            requires
                shift <= 5,
        ;
        let b = dblocks >> shift;
        assert(b == 0 ==> dblocks & ((1u64 << shift) - 1) as u64 != 0) by (bit_vector)
            requires
                shift <= 5,
                dblocks > 0,
                b == dblocks >> shift,
        ;
        if dblocks & ((1u64 << shift) - 1) != 0 && b < max {
            b + 1
        } else {
            b
        }
    };
    (blocks, div_ceil(dblocks, blocks))
}


/// Shifting and or-ing is adding, when the low part fits under the shift.
proof fn lemma_shl_or(a: u64, k: u64, b: u64)
    requires
        k < 64,
        b < pow2(k as nat),
        a * pow2(k as nat) + b <= u64::MAX,
    ensures
        (a << k) | b == a * pow2(k as nat) + b,
{
    vstd::arithmetic::power2::lemma_pow2_pos(k as nat);
    assert(a * pow2(k as nat) <= u64::MAX) by {
        assert(a * pow2(k as nat) <= a * pow2(k as nat) + b);
    }
    vstd::bits::lemma_u64_shl_is_mul(a, k);
    vstd::bits::lemma_u64_pow2_no_overflow(k as nat);
    vstd::bits::lemma_u64_shl_is_mul(1, k);
    let p = 1u64 << k;
    assert(p == pow2(k as nat));
    assert((a << k) | b == (a << k) + b) by (bit_vector)
        requires
            k < 64,
            b < p,
            p == 1u64 << k,
            (a << k) + b <= 0xffff_ffff_ffff_ffffu64,
    ;
}

impl Geometry {
    /// `sb_logsunit`, in bytes: one block when the log sector is over
    /// 512 bytes, else 1 (a v2 log with no stripe unit never records 0).
    pub fn logsunit(&self) -> (r: u32)
        ensures
            r == self@.logsunit(),
    {
        if self.lsectsize > 512 {
            self.blocksize
        } else {
            1
        }
    }

    /// Bytes per filesystem block, as a `u64`.
    pub fn bs(&self) -> (r: u64)
        ensures
            r == self.blocksize,
    {
        self.blocksize as u64
    }

    /// Blocks in allocation group `agno` — the last may be short.
    pub fn ag_blocks(&self, agno: u64) -> (r: u64)
        requires
            self.agcount >= 1,
            agno == self.agcount - 1 ==> agno * self.agsize <= self.dblocks,
        ensures
            r == self@.ag_blocks(agno as int),
    {
        if agno == self.agcount - 1 {
            self.dblocks - agno * self.agsize
        } else {
            self.agsize
        }
    }

    /// `XFS_AGFL_BLOCK`: blocks taken by the four header sectors.
    pub fn header_blocks(&self) -> (r: u64)
        requires
            self.blocksize > 0,
        ensures
            r == self@.header_blocks(),
    {
        div_ceil(4 * (self.sectsize as u64), self.bs())
    }

    /// `XFS_BNO_BLOCK`.
    pub fn bno_block(&self) -> (r: u64)
        requires
            self.blocksize > 0,
        ensures
            r == self@.bno_block(),
    {
        self.header_blocks()
    }

    proof fn lemma_header_small(&self)
        requires
            self.blocksize > 0,
        ensures
            self@.header_blocks() <= 4 * self.sectsize,
    {
        let n = 4 * self.sectsize;
        let d = self.blocksize as int;
        if d == 1 {
            assert(n % d == 0 && n / d == n) by (nonlinear_arith)
                requires
                    d == 1,
            ;
        } else {
            assert(n / d + 1 <= n || (n / d <= n && n % d == 0)) by (nonlinear_arith)
                requires
                    d >= 2,
                    n >= 0,
            ;
        }
    }

    /// `XFS_CNT_BLOCK`.
    pub fn cnt_block(&self) -> (r: u64)
        requires
            self.blocksize > 0,
        ensures
            r == self@.cnt_block(),
    {
        proof {
            self.lemma_header_small();
        }
        self.bno_block() + 1
    }

    /// `XFS_IBT_BLOCK`.
    pub fn ibt_block(&self) -> (r: u64)
        requires
            self.blocksize > 0,
        ensures
            r == self@.ibt_block(),
    {
        proof {
            self.lemma_header_small();
        }
        self.cnt_block() + 1
    }

    /// `XFS_FIBT_BLOCK`.
    pub fn fibt_block(&self) -> (r: u64)
        requires
            self.blocksize > 0,
        ensures
            r == self@.fibt_block(),
    {
        proof {
            self.lemma_header_small();
        }
        self.ibt_block() + 1
    }

    /// `XFS_RMAP_BLOCK`.
    pub fn rmap_block(&self) -> (r: u64)
        requires
            self.blocksize > 0,
        ensures
            r == self@.rmap_block(),
    {
        proof {
            self.lemma_header_small();
        }
        if self.features.finobt {
            self.fibt_block() + 1
        } else {
            self.ibt_block() + 1
        }
    }

    /// `xfs_refc_block`.
    pub fn refc_block(&self) -> (r: u64)
        requires
            self.blocksize > 0,
        ensures
            r == self@.refc_block(),
    {
        proof {
            self.lemma_header_small();
        }
        if self.features.rmapbt {
            self.rmap_block() + 1
        } else if self.features.finobt {
            self.fibt_block() + 1
        } else {
            self.ibt_block() + 1
        }
    }

    /// `xfs_prealloc_blocks`: the headers and btree roots at the start of
    /// every AG.
    pub fn prealloc_blocks(&self) -> (r: u64)
        requires
            self.blocksize > 0,
        ensures
            r == self@.prealloc_blocks(),
    {
        proof {
            self.lemma_header_small();
        }
        if self.features.reflink {
            self.refc_block() + 1
        } else if self.features.rmapbt {
            self.rmap_block() + 1
        } else if self.features.finobt {
            self.fibt_block() + 1
        } else {
            self.ibt_block() + 1
        }
    }

    /// `xfs_alloc_ag_max_usable`.
    pub fn ag_max_usable(&self) -> (r: u64)
        requires
            self.blocksize > 0,
            self@.ag_max_usable() >= 0,
        ensures
            r == self@.ag_max_usable(),
    {
        proof {
            self.lemma_header_small();
        }
        let f = self.features;
        let blocks = self.header_blocks() + ALLOCBT_AGFL_RESERVE + 3 + (if f.finobt {
            1
        } else {
            0
        }) + (if f.rmapbt { 1 } else { 0 }) + (if f.reflink { 1 } else { 0 });
        self.agsize - blocks
    }

    /// `xfs_agfl_size`: free list slots in the AGFL sector.
    pub fn agfl_size(&self) -> (r: u32)
        requires
            self.sectsize >= AGFL_HEADER,
        ensures
            r == self@.agfl_size(),
    {
        (self.sectsize - AGFL_HEADER) / 4
    }

    /// `xfs_alloc_min_freelist` for an AG whose btrees are all one level:
    /// what `mkfs.xfs` fills each AGFL with.
    pub fn min_freelist(&self) -> (r: u64)
        ensures
            r == self@.min_freelist(),
    {
        // (level + 1) * 2 - 2 for the bno, cnt and rmap btrees. The
        // maximum heights that clamp this are never below 2.
        2 + 2 + if self.features.rmapbt { 2 } else { 0 }
    }

    /// Blocks in an inode chunk.
    pub fn chunk_blocks(&self) -> (r: u64)
        requires
            self@.wf(),
        ensures
            r == self@.chunk_blocks(),
    {
        let bytes = (INODES_PER_CHUNK as u64) * (self.inodesize as u64);
        proof {
            vstd::bits::lemma_u64_shr_is_div(bytes, self.blocklog as u64);
        }
        bytes >> (self.blocklog as u64)
    }

    /// Inode cluster alignment in blocks: `XFS_INODE_BIG_CLUSTER_SIZE`
    /// scaled by inode size (v5), and `sb_spino_align` when sparse.
    pub fn cluster_align(&self) -> (r: u64)
        requires
            self@.wf(),
        ensures
            r == self@.cluster_align(),
    {
        proof {
            lemma2_to64();
        }
        let cluster = INODE_BIG_CLUSTER_SIZE * (self.inodesize / DINODE_MIN_SIZE);
        proof {
            vstd::bits::lemma_u32_shr_is_div(cluster, self.blocklog as u32);
        }
        (cluster >> (self.blocklog as u32)) as u64
    }

    /// `sb_inoalignmt`.
    pub fn inoalignmt(&self) -> (r: u64)
        requires
            self@.wf(),
        ensures
            r == self@.inoalignmt(),
    {
        if self.features.sparse {
            self.chunk_blocks()
        } else {
            self.cluster_align()
        }
    }

    /// `sb_spino_align`.
    pub fn spino_align(&self) -> (r: u32)
        requires
            self@.wf(),
        ensures
            r == self@.spino_align(),
    {
        if self.features.sparse {
            let c = self.cluster_align();
            proof {
                lemma2_to64();
                assert(c <= 65536) by {
                    vstd::arithmetic::div_mod::lemma_div_is_ordered_by_denominator(
                        (INODE_BIG_CLUSTER_SIZE * (self.inodesize / DINODE_MIN_SIZE)) as int,
                        1,
                        self.blocksize as int,
                    );
                }
            }
            c as u32
        } else {
            0
        }
    }

    /// Filesystem block number as XFS encodes it: the AG number above
    /// `agblklog` bits.
    pub fn agb_to_fsb(&self, agno: u64, agbno: u64) -> (r: u64)
        requires
            self.agblklog < 64,
        ensures
            r == (agno << (self.agblklog as u64)) | agbno,
            agbno < pow2(self.agblklog as nat) && self@.agb_to_fsb(agno as int, agbno as int)
                <= u64::MAX ==> r == self@.agb_to_fsb(agno as int, agbno as int),
    {
        proof {
            if agbno < pow2(self.agblklog as nat) && self@.agb_to_fsb(agno as int, agbno as int)
                <= u64::MAX {
                lemma_shl_or(agno, self.agblklog as u64, agbno);
            }
        }
        (agno << (self.agblklog as u64)) | agbno
    }

    /// Byte offset of block `agbno` in AG `agno`.
    pub fn agb_to_byte(&self, agno: u64, agbno: u64) -> (r: u64)
        requires
            self@.wf(),
            self@.agb_to_byte(agno as int, agbno as int) <= u64::MAX,
        ensures
            r == self@.agb_to_byte(agno as int, agbno as int),
    {
        proof {
            self.lemma_wf_small();
            assert((agno * self.agsize + agbno) * self.blocksize >= agno * self.agsize + agbno) by (nonlinear_arith)
                requires
                    self.blocksize >= 1,
                    agno * self.agsize + agbno >= 0,
            ;
            assert(agno * self.agsize >= 0) by (nonlinear_arith);
        }
        let x = agno * self.agsize + agbno;
        proof {
            vstd::bits::lemma_u64_shl_is_mul(x, self.blocklog as u64);
        }
        x << (self.blocklog as u64)
    }

    /// Disk address (512-byte units) of block `agbno` in AG `agno`.
    pub fn agb_to_daddr(&self, agno: u64, agbno: u64) -> (r: u64)
        requires
            self@.wf(),
            self@.agb_to_byte(agno as int, agbno as int) <= u64::MAX,
        ensures
            r == self@.agb_to_daddr(agno as int, agbno as int),
    {
        proof {
            self.lemma_wf_small();
            assert((agno * self.agsize + agbno) * self.blocksize >= agno * self.agsize + agbno) by (nonlinear_arith)
                requires
                    self.blocksize >= 1,
                    agno * self.agsize + agbno >= 0,
            ;
            assert(agno * self.agsize >= 0) by (nonlinear_arith);
        }
        let x = agno * self.agsize + agbno;
        let k = (self.blocklog - 9) as u64;
        proof {
            lemma2_to64();
            vstd::arithmetic::power2::lemma_pow2_adds(k as nat, 9);
            assert(self.blocksize / 512 == pow2(k as nat)) by {
                vstd::arithmetic::div_mod::lemma_div_multiples_vanish(pow2(k as nat) as int, 512);
            }
            assert(x * pow2(k as nat) <= x * self.blocksize) by {
                vstd::arithmetic::mul::lemma_mul_inequality(pow2(k as nat) as int, self.blocksize as int, x as int);
                vstd::arithmetic::mul::lemma_mul_is_commutative(x as int, pow2(k as nat) as int);
                vstd::arithmetic::mul::lemma_mul_is_commutative(x as int, self.blocksize as int);
            }
            vstd::bits::lemma_u64_shl_is_mul(x, k);
        }
        x << k
    }

    /// Inode number of the inode at `agbno`, slot `slot`, in AG `agno`.
    pub fn ino(&self, agno: u64, agbno: u64, slot: u64) -> (r: u64)
        requires
            self.agblklog + self.inopblog < 64,
        ensures
            r == (agno << ((self.agblklog + self.inopblog) as u64)) | ((agbno << (self.inopblog as u64))
                | slot),
            self@.wf() && slot < self.inopblock && agbno < self.agsize && self@.ino(
                agno as int,
                agbno as int,
                slot as int,
            ) <= u64::MAX ==> r == self@.ino(agno as int, agbno as int, slot as int),
    {
        let agino = (agbno << (self.inopblog as u64)) | slot;
        let r = (agno << ((self.agblklog + self.inopblog) as u64)) | agino;
        proof {
            let ino = self@.ino(agno as int, agbno as int, slot as int);
            if self@.wf() && slot < self.inopblock && agbno < self.agsize && ino <= u64::MAX {
                let a = self.agblklog as nat;
                let i = self.inopblog as nat;
                vstd::arithmetic::power2::lemma_pow2_adds(a, i);
                vstd::arithmetic::power2::lemma_pow2_pos(a);
                vstd::arithmetic::power2::lemma_pow2_pos(i);
                assert(agbno * pow2(i) + slot < pow2(a) * pow2(i)) by {
                    assert(agbno + 1 <= pow2(a));
                    vstd::arithmetic::mul::lemma_mul_inequality(agbno + 1, pow2(a) as int, pow2(i) as int);
                    assert((agbno + 1) * pow2(i) == agbno * pow2(i) + pow2(i)) by (nonlinear_arith);
                }
                assert(agno * pow2(a + i) >= 0) by (nonlinear_arith);
                assert(agbno * pow2(i) >= 0) by (nonlinear_arith);
                assert(agbno * pow2(i) + slot <= u64::MAX);
                lemma_shl_or(agbno, i as u64, slot);
                lemma_shl_or(agno, (a + i) as u64, agino);
            }
        }
        r
    }

    /// `sb_logstart`.
    pub fn logstart(&self) -> (r: u64)
        requires
            self@.wf(),
        ensures
            r == self@.logstart_field(),
            r == self@.logstart(),
    {
        proof {
            self.lemma_wf_small();
            lemma_wf_sizes(self@);
            lemma2_to64();
            assert(self.logagno * pow2(self.agblklog as nat) <= 0x8000_0000u64 * 0x8000_0000u64) by {
                vstd::arithmetic::power2::lemma_pow2_strictly_increases(self.agblklog as nat, 32);
                vstd::arithmetic::mul::lemma_mul_upper_bound(
                    self.logagno as int,
                    0x8000_0000,
                    pow2(self.agblklog as nat) as int,
                    0x8000_0000,
                );
            }
        }
        self.agb_to_fsb(self.logagno, self.log_agbno)
    }

    proof fn lemma_wf_small(&self)
        requires
            self@.wf(),
        ensures
            self.agblklog <= 31,
            self.agsize < 0x4000_0000,
            self.agsize >= 1024,
            self@.header_blocks() <= 4,
            self@.prealloc_blocks() <= 11,
            self.inopblog <= 5,
            self.blocksize >= 1024,
            self.inopblock >= 2,
    {
        lemma2_to64();
        let bl = self.blocklog as u64;
        assert((1099511627775u64 >> bl) < 0x4000_0000u64 && (16777216u64 >> bl) >= 1024u64) by (bit_vector)
            requires
                10 <= bl <= 14,
        ;
        if self.agblklog > 31 {
            vstd::arithmetic::power2::lemma_pow2_strictly_increases(31, (self.agblklog - 1) as nat);
        }
        if self.blocklog < 10 {
            vstd::arithmetic::power2::lemma_pow2_strictly_increases(self.blocklog as nat, 10);
        }
        assert(self.sectsize <= self.blocksize) by {
            if self.sectlog < self.blocklog {
                vstd::arithmetic::power2::lemma_pow2_strictly_increases(self.sectlog as nat, self.blocklog as nat);
            }
        }
        let n = 4 * self.sectsize;
        let d = self.blocksize as int;
        assert(n / d <= 4 && (n / d == 4 ==> n % d == 0)) by (nonlinear_arith)
            requires
                0 <= n <= 4 * d,
                d > 0,
        ;
        if self.inopblog == 0 {
        } else {
            vstd::arithmetic::power2::lemma_pow2_strictly_increases(0, self.inopblog as nat);
        }
    }

    /// `xfs_ialloc_calc_rootino`: where the root inode chunk goes in AG 0.
    pub fn root_chunk_agbno(&self) -> (r: u64)
        requires
            self@.wf(),
        ensures
            r == self@.root_chunk_agbno(),
            r < 200,
    {
        proof {
            self.lemma_wf_small();
            lemma2_to64();
        }
        let f = self.features;
        let mut first = self.header_blocks() + 2 + 1 + self.min_freelist();
        first = first + (if f.finobt { 1 } else { 0 }) + (if f.rmapbt { 1 } else { 0 }) + (if f.reflink {
            1
        } else {
            0
        });
        proof {
            assert(self.logagno >= 1);
        }
        if self.logagno == 0 {
            first = first + self.logblocks;
        }
        let align = self.inoalignmt();
        proof {
            assert(align <= 128) by {
                vstd::arithmetic::div_mod::lemma_div_is_ordered(
                    INODES_PER_CHUNK * self.inodesize,
                    64 * 2048int,
                    self.blocksize as int,
                );
                vstd::arithmetic::div_mod::lemma_div_is_ordered_by_denominator(
                    64 * 2048int,
                    1024,
                    self.blocksize as int,
                );
                vstd::arithmetic::div_mod::lemma_div_is_ordered(
                    INODE_BIG_CLUSTER_SIZE * (self.inodesize / DINODE_MIN_SIZE),
                    8192 * 8int,
                    self.blocksize as int,
                );
                vstd::arithmetic::div_mod::lemma_div_is_ordered_by_denominator(
                    8192 * 8int,
                    1024,
                    self.blocksize as int,
                );
                vstd::arithmetic::div_mod::lemma_div_is_ordered(self.inodesize as int, 2048int, 256int);
            }
        }
        if align > 1 {
            proof {
                lemma_ceil_div_mul(first as int, align as int);
            }
            first = div_ceil(first, align) * align;
        }
        first
    }

    /// The root directory's inode number.
    pub fn rootino(&self) -> (r: u64)
        requires
            self@.wf(),
        ensures
            r == self@.rootino(),
            r <= 6400,
    {
        proof {
            self.lemma_wf_small();
            lemma2_to64();
        }
        let b = self.root_chunk_agbno();
        proof {
            assert(self.inopblock <= 32) by {
                vstd::arithmetic::power2::lemma_pow2_strictly_increases(self.inopblog as nat, 6);
            }
            assert(b * self.inopblock <= 200 * 32) by (nonlinear_arith)
                requires
                    b < 200,
                    self.inopblock <= 32,
            ;
            assert(0 * pow2((self.agblklog + self.inopblog) as nat) == 0);
        }
        self.ino(0, b, 0)
    }

    /// Free blocks before the root inode chunk is allocated:
    /// `dblocks - agcount * prealloc - logblocks`. What the secondary
    /// superblocks record.
    pub fn initial_fdblocks(&self) -> (r: u64)
        requires
            self@.wf(),
            self.agcount * self@.prealloc_blocks() + self.logblocks <= self.dblocks,
        ensures
            r == self@.initial_fdblocks(),
    {
        proof {
            self.lemma_wf_small();
        }
        self.dblocks - self.agcount * self.prealloc_blocks() - self.logblocks
    }

    /// `calculate_log_size`, for an internal log with no size given.
    fn calculate_log_size(&mut self) -> (r: Result<(), Error>)
        requires
            10 <= old(self).blocklog <= 14,
            old(self).blocksize == pow2(old(self).blocklog as nat),
            512 <= old(self).sectsize <= old(self).blocksize,
            old(self).inodesize <= 2048,
            old(self).agsize >= 1024,
        ensures
            match r {
                Ok(()) => placed_log(old(self)@) == Ok::<GeometryView, Refusal>(final(self)@),
                Err(e) => refusal_of(e) is Some && placed_log(old(self)@) == Err::<
                    GeometryView,
                    Refusal,
                >(refusal_of(e)->0),
            },
    {
        let ghost g0 = self@;
        proof {
            lemma2_to64();
            let n = 4 * self.sectsize;
            let d = self.blocksize as int;
            assert(n / d <= 4 && (n / d == 4 ==> n % d == 0)) by (nonlinear_arith)
                requires
                    0 <= n <= 4 * d,
                    d > 0,
            ;
        }
        let blocklog = self.blocklog as u64;
        // The minimum log size needs the transaction reservation table,
        // which this crate does not have. It only decides the size for a
        // filesystem under 300 MB, refused below, or where it exceeds the
        // 64 MiB realistic floor — block sizes over 16 KiB, refused above.
        if self.dblocks < (300 * MIB) >> blocklog {
            return Err(
                Error::Unsupported(
                    "filesystems under 300 MB, whose log is the minimum log size".to_owned(),
                ),
            );
        }
        // "Make sure the log fits wholly within an AG", less one block.
        let max_logblocks = self.ag_max_usable() - 1;
        // A 2048:1 filesystem-to-log ratio...
        let mut logblocks = ((self.dblocks << blocklog) / 2048) >> blocklog;
        // ...but not below a realistic size...
        if logblocks < (64 * MIB) >> blocklog {
            logblocks = (64 * MIB) >> blocklog;
        }
        // ...and within the AG and the format's limits.
        if logblocks > max_logblocks {
            logblocks = max_logblocks;
        }
        if logblocks > MAX_LOG_BLOCKS {
            logblocks = MAX_LOG_BLOCKS;
        }
        assert(logblocks << blocklog == logblocks * pow2(blocklog as nat)) by {
            vstd::arithmetic::power2::lemma_pow2_strictly_increases(blocklog as nat, 15);
            assert(logblocks * pow2(blocklog as nat) <= 1048576 * 32768) by (nonlinear_arith)
                requires
                    logblocks <= 1048576,
                    pow2(blocklog as nat) <= 32768,
            ;
            vstd::bits::lemma_u64_shl_is_mul(logblocks, blocklog);
        }
        if logblocks << blocklog > MAX_LOG_BYTES {
            logblocks = MAX_LOG_BYTES >> blocklog;
        }
        if logblocks > self.agsize - self.prealloc_blocks() {
            return Err(
                Error::InvalidParams(
                    message1("internal log size ", logblocks, " too large, must fit in allocation group"),
                ),
            );
        }
        self.logagno = self.agcount / 2;
        if self.logagno == 0 {
            // adjust_ag0_internal_logblocks: leave room for the root inode
            // chunk and an aligned freelist fixup.
            let ichunk = ((INODES_PER_CHUNK * self.inodesize) as u64) >> blocklog;
            proof {
                vstd::bits::lemma_u64_shr_is_div(((INODES_PER_CHUNK * self.inodesize) as u64), blocklog);
                vstd::arithmetic::div_mod::lemma_div_is_ordered(
                    INODES_PER_CHUNK * self.inodesize,
                    64 * 2048int,
                    self.blocksize as int,
                );
                vstd::arithmetic::div_mod::lemma_div_is_ordered_by_denominator(
                    64 * 2048int,
                    1024,
                    self.blocksize as int,
                );
            }
            if logblocks > max_logblocks - ichunk * 4 {
                logblocks = max_logblocks - ichunk * 4;
            }
        }
        self.logblocks = logblocks;
        self.log_agbno = self.prealloc_blocks();
        assert(self@ =~= placed_log(g0)->Ok_0);
        Ok(())
    }
}

/// `validate_blocksize`.
fn check_blocksize(bs: u32) -> (r: Result<u8, Error>)
    ensures
        match r {
            Ok(bl) => {
                &&& blocksize_refusal(bs) is None
                &&& bl as nat == log2(bs as int)
                &&& pow2(bl as nat) == bs
                &&& 10 <= bl <= 14
            },
            Err(e) => blocksize_refusal(bs) is Some && refusal_of(e) == blocksize_refusal(bs),
        },
{
    if !is_power_of_two(bs) || bs < 512 || bs > MAX_BLOCKSIZE {
        return Err(Error::InvalidParams(message1("illegal block size ", bs as u64, "")));
    }
    if bs < MIN_CRC_BLOCKSIZE {
        return Err(
            Error::InvalidParams(
                message1("minimum block size for CRC enabled filesystems is ", MIN_CRC_BLOCKSIZE as u64, " bytes"),
            ),
        );
    }
    if bs > MAX_SUPPORTED_BLOCKSIZE {
        return Err(
            Error::Unsupported(
                message1(
                    "block size ",
                    bs as u64,
                    ": mkfs.xfs sizes its log from the minimum log size there, which this crate does not calculate yet",
                ),
            ),
        );
    }
    let bl = pow2_log(bs);
    proof {
        lemma2_to64();
        if bl < 10 {
            vstd::arithmetic::power2::lemma_pow2_strictly_increases(bl as nat, 10);
        }
        if bl > 14 {
            vstd::arithmetic::power2::lemma_pow2_strictly_increases(14, bl as nat);
        }
    }
    Ok(bl)
}

/// `validate_sectorsize`.
fn check_sectsize(p: &Params, bs: u32, logical_sector: u32, physical_sector: u32) -> (r: Result<(u32, u8), Error>)
    ensures
        match r {
            Ok((ss, sl)) => {
                &&& ss == chosen_sectsize(*p, bs, logical_sector, physical_sector)
                &&& !sectsize_refused(ss, bs, logical_sector)
                &&& sl as nat == log2(ss as int)
                &&& pow2(sl as nat) == ss
            },
            Err(e) => sectsize_refused(chosen_sectsize(*p, bs, logical_sector, physical_sector), bs, logical_sector)
                && refusal_of(e) == Some(Refusal::Invalid),
        },
{
    let logical = if logical_sector >= MIN_SECTORSIZE { logical_sector } else { MIN_SECTORSIZE };
    let sectsize = match p.sector_size {
        Some(s) => s,
        None => {
            let mut physical = if physical_sector >= logical { physical_sector } else { logical };
            if physical > MAX_SECTORSIZE {
                physical = logical;
            }
            if bs < physical && bs >= logical {
                logical
            } else {
                physical
            }
        },
    };
    if !is_power_of_two(sectsize) || sectsize < MIN_SECTORSIZE || sectsize > MAX_SECTORSIZE {
        return Err(Error::InvalidParams(message1("illegal sector size ", sectsize as u64, "")));
    }
    if bs < sectsize {
        return Err(
            Error::InvalidParams(
                message2("block size ", bs as u64, " cannot be smaller than sector size ", sectsize as u64, ""),
            ),
        );
    }
    if sectsize < logical {
        return Err(
            Error::InvalidParams(
                message2("illegal sector size ", sectsize as u64, "; hw sector is ", logical as u64, ""),
            ),
        );
    }
    let sl = pow2_log(sectsize);
    Ok((sectsize, sl))
}

/// `validate_inodesize`.
fn check_inodesize(p: &Params, bs: u32) -> (r: Result<(u32, u8), Error>)
    ensures
        match r {
            Ok((isz, il)) => {
                &&& isz == chosen_inodesize(*p)
                &&& !inodesize_refused(isz, bs)
                &&& il as nat == log2(isz as int)
                &&& pow2(il as nat) == isz
            },
            Err(e) => inodesize_refused(chosen_inodesize(*p), bs) && refusal_of(e) == Some(
                Refusal::Invalid,
            ),
        },
{
    let inodesize = match p.inode_size {
        Some(i) => i,
        None => 512,
    };
    if !is_power_of_two(inodesize) || inodesize < 512 || inodesize > DINODE_MAX_SIZE || inodesize
        > bs / 2 {
        let most = if bs / 2 < DINODE_MAX_SIZE { bs / 2 } else { DINODE_MAX_SIZE };
        return Err(
            Error::InvalidParams(
                message2("illegal inode size ", inodesize as u64, " (512 to ", most as u64, ")"),
            ),
        );
    }
    let il = pow2_log(inodesize);
    Ok((inodesize, il))
}

/// `validate_datadev`.
fn check_dblocks(p: &Params, device_size: u64, blocklog: u8) -> (r: Result<u64, Error>)
    requires
        blocklog < 64,
    ensures
        match r {
            Ok(d) => chosen_dblocks(*p, device_size, blocklog) == Some(d),
            Err(e) => chosen_dblocks(*p, device_size, blocklog) is None && refusal_of(e) == Some(
                Refusal::Invalid,
            ),
        },
{
    let device_blocks = device_size >> (blocklog as u64);
    let dblocks = match p.size {
        Some(bytes) => {
            let b = bytes >> (blocklog as u64);
            if b > device_blocks {
                return Err(
                    Error::InvalidParams(
                        message2("size ", bytes, " is too large, maximum is ", device_blocks, " blocks"),
                    ),
                );
            }
            b
        },
        None => device_blocks,
    };
    let min = ag_min_blocks(blocklog);
    if dblocks < min {
        return Err(
            Error::InvalidParams(
                message2("size ", dblocks, " of data subvolume is too small, minimum ", min, " blocks"),
            ),
        );
    }
    Ok(dblocks)
}

/// `calculate_initial_ag_geometry`. The concurrency path (taken for a
/// non-rotational device) is not reproduced: this is the geometry
/// mkfs.xfs gives a file or a rotational disk.
fn initial_ag_geometry(p: &Params, bs: u32, blocklog: u8, dblocks: u64) -> (r: Result<(u64, u64), Error>)
    requires
        bs > 0,
        blocklog < 40,
        dblocks > 0,
    ensures
        match r {
            Ok(x) => {
                &&& chosen_ag_geometry(*p, bs, blocklog, dblocks) == Some(x)
                &&& x.0 > 0
                &&& x.1 > 0
                &&& x.1 * x.0 >= dblocks
                &&& (p.agcount is None || p.agsize is Some) ==> x.1 == ceil_div(dblocks as int, x.0 as int)
            },
            Err(e) => chosen_ag_geometry(*p, bs, blocklog, dblocks) is None && refusal_of(e) == Some(
                Refusal::Invalid,
            ),
        },
{
    if let Some(bytes) = p.agsize {
        if bytes % (bs as u64) != 0 {
            return Err(
                Error::InvalidParams(
                    message2("agsize (", bytes, ") not a multiple of fs blk size (", bs as u64, ")"),
                ),
            );
        }
        let s = bytes / (bs as u64);
        if s == 0 {
            return Err(Error::InvalidParams("agsize 0".to_owned()));
        }
        let n = div_ceil(dblocks, s);
        proof {
            lemma_ceil_div_mul(dblocks as int, s as int);
            if n == 0 {
                assert(n * s == 0) by (nonlinear_arith)
                    requires
                        n == 0,
                ;
            }
            assert(n > 0);
            assert(n * s >= dblocks);
        }
        Ok((s, n))
    } else if let Some(n) = p.agcount {
        if n == 0 {
            return Err(Error::InvalidParams("agcount 0".to_owned()));
        }
        let s = div_ceil(dblocks, n);
        proof {
            lemma_ceil_div_mul(dblocks as int, n as int);
            vstd::arithmetic::mul::lemma_mul_is_commutative(s as int, n as int);
            if s == 0 {
                assert(s * n == 0);
            }
        }
        Ok((s, n))
    } else {
        let r = default_ag_geometry(blocklog, dblocks, false);
        proof {
            lemma_ceil_div_mul(dblocks as int, r.0 as int);
            if r.1 == 0 {
                assert(r.1 * r.0 == 0);
            }
        }
        Ok(r)
    }
}

/// `calculate_imaxpct`.
fn check_imaxpct(p: &Params, blocklog: u8, dblocks: u64) -> (r: Result<u8, Error>)
    requires
        blocklog < 64,
    ensures
        match r {
            Ok(x) => chosen_imaxpct(*p, blocklog, dblocks) == Some(x),
            Err(e) => chosen_imaxpct(*p, blocklog, dblocks) is None && refusal_of(e) == Some(
                Refusal::Invalid,
            ),
        },
{
    let bl = blocklog as u64;
    match p.imaxpct {
        Some(x) => if x > 100 {
            Err(Error::InvalidParams(message1("imaxpct ", x as u64, " is over 100")))
        } else {
            Ok(x)
        },
        None => Ok(
            if dblocks < (TIB >> bl) {
                25
            } else if dblocks < (50 * TIB) >> bl {
                5
            } else {
                1
            },
        ),
    }
}

/// The label's bytes, zero padded.
fn check_label(p: &Params) -> (r: Result<[u8; 12], Error>)
    ensures
        match r {
            Ok(b) => chosen_label(*p) == Some(b@),
            Err(e) => chosen_label(*p) is None && refusal_of(e) == Some(Refusal::Invalid),
        },
{
    let mut out = [0u8; 12];
    match &p.label {
        Some(l) => {
            let bytes = l.as_str().as_bytes();
            if bytes.len() > 12 {
                return Err(Error::InvalidParams("label is longer than 12 bytes".to_owned()));
            }
            let mut i: usize = 0;
            while i < bytes.len()
                invariant
                    i <= bytes@.len() <= 12,
                    out@.len() == 12,
                    forall|j: int| 0 <= j < i ==> out@[j] == bytes@[j],
                    forall|j: int| i <= j < 12 ==> out@[j] == 0u8,
                decreases bytes@.len() - i,
            {
                out[i] = bytes[i];
                i += 1;
            }
            proof {
                let b = vstd::utf8::encode_utf8(l@);
                assert(bytes@ == b);
                assert(out@ =~= b + Seq::new((12 - b.len()) as nat, |i: int| 0u8));
            }
            Ok(out)
        },
        None => {
            assert(out@ =~= Seq::new(12, |i: int| 0u8));
            Ok(out)
        },
    }
}


/// Block, sector and inode sizes, with their logs.
fn check_sizes(params: &Params, logical_sector: u32, physical_sector: u32) -> (r: Result<(u32, u8, u32, u8, u32, u8), Error>)
    ensures
        match r {
            Ok((bs, bl, ss, sl, isz, il)) => {
                &&& spec_sizes(*params, logical_sector, physical_sector) == Ok::<(u32, u32, u32), Refusal>((bs, ss, isz))
                &&& bl as nat == log2(bs as int) && sl as nat == log2(ss as int) && il as nat == log2(isz as int)
                &&& bs == pow2(bl as nat) && ss == pow2(sl as nat) && isz == pow2(il as nat)
                &&& 10 <= bl <= 14 && 9 <= sl <= bl && 9 <= il <= 11 && il < bl
                &&& 512 <= ss <= bs && 512 <= isz <= 2048
            },
            Err(e) => refusal_of(e) is Some && spec_sizes(*params, logical_sector, physical_sector)
                == Err::<(u32, u32, u32), Refusal>(refusal_of(e)->0),
        },
{
    let f = params.features;
    if f.inobtcount && !f.finobt {
        return Err(
            Error::InvalidParams("inobtcount requires finobt (-m inobtcount=1 needs finobt=1)".to_owned()),
        );
    }
    let blocksize = match params.block_size {
        Some(b) => b,
        None => 4096,
    };
    let blocklog = check_blocksize(blocksize)?;
    let (sectsize, sectlog) = check_sectsize(params, blocksize, logical_sector, physical_sector)?;
    let (inodesize, inodelog) = check_inodesize(params, blocksize)?;
    proof {
        lemma2_to64();
        assert(power_of_two(512)) by {
            reveal_with_fuel(power_of_two, 10);
        }
        assert(power_of_two(2048)) by {
            reveal_with_fuel(power_of_two, 12);
        }
        assert(log2(512) == 9) by {
            reveal_with_fuel(log2, 10);
        }
        assert(log2(2048) == 11) by {
            reveal_with_fuel(log2, 12);
        }
        lemma_log2_mono(512, sectsize as int);
        lemma_log2_mono(sectsize as int, blocksize as int);
        lemma_log2_mono(512, inodesize as int);
        lemma_log2_mono(inodesize as int, 2048);
        lemma_log2_strict(inodesize as int, blocksize as int);
    }
    Ok((blocksize, blocklog, sectsize, sectlog, inodesize, inodelog))
}

/// Data blocks, AG size and AG count.
fn check_ag_layout(params: &Params, device_size: u64, bs: u32, bl: u8) -> (r: Result<(u64, u64, u64), Error>)
    requires
        10 <= bl <= 14,
        bs == pow2(bl as nat),
        bl as nat == log2(bs as int),
    ensures
        match r {
            Ok((dblocks, agsize, agcount)) => {
                &&& spec_ag_layout(*params, device_size, bs) == Ok::<(u64, u64, u64), Refusal>((dblocks, agsize, agcount))
                &&& ag_min_blocks_spec(bl) <= agsize <= ag_max_blocks_spec(bl)
                &&& 1024 <= agsize < 0x4000_0000
                &&& agsize <= dblocks
                &&& agcount <= MAX_AGNUMBER
                &&& dblocks <= agcount * agsize
                &&& (dblocks % agsize == 0 || dblocks % agsize >= ag_min_blocks_spec(bl))
                &&& dblocks * bs <= u64::MAX
            },
            Err(e) => refusal_of(e) is Some && spec_ag_layout(*params, device_size, bs) == Err::<
                (u64, u64, u64),
                Refusal,
            >(refusal_of(e)->0),
        },
{
    let blocklog = bl;
    let dblocks0 = check_dblocks(params, device_size, blocklog)?;
    let ghost blg = blocklog as u64;
    proof {
        assert((16777216u64 >> blg) >= 1024u64) by (bit_vector)
            requires
                10 <= blg <= 14,
        ;
    }
    let (agsize, agcount0) = initial_ag_geometry(params, bs, blocklog, dblocks0)?;
    let min = ag_min_blocks(blocklog);
    proof {
        lemma_ceil_div_mul(dblocks0 as int, agsize as int);
    }
    // align_ag_geometry, with no stripe unit: drop a last AG too small
    // to be one.
    let (dblocks, agcount) = if dblocks0 % agsize != 0 && dblocks0 % agsize < min {
        if params.agcount.is_some() {
            return Err(
                Error::InvalidParams(
                    message2("last AG size ", dblocks0 % agsize, " blocks too small, minimum size is ", min, " blocks"),
                ),
            );
        }
        proof {
            assert((agcount0 - 1) * agsize <= dblocks0);
        }
        ((agcount0 - 1) * agsize, agcount0 - 1)
    } else {
        (dblocks0, agcount0)
    };
    proof {
        if dblocks0 % agsize != 0 && dblocks0 % agsize < min {
            assert(dblocks % agsize == 0) by {
                vstd::arithmetic::div_mod::lemma_mod_multiples_basic(agcount as int, agsize as int);
            }
            assert(dblocks <= agcount * agsize);
        } else {
            assert(agcount * agsize >= dblocks) by {
                vstd::arithmetic::mul::lemma_mul_is_commutative(agcount as int, agsize as int);
            }
        }
    }
    // validate_ag_geometry
    if agsize < min {
        return Err(
            Error::InvalidParams(
                message2("agsize (", agsize, " blocks) too small, need at least ", min, " blocks"),
            ),
        );
    }
    let max = ag_max_blocks(blocklog);
    if agsize > max {
        return Err(
            Error::InvalidParams(
                message2("agsize (", agsize, " blocks) too big, maximum is ", max, " blocks"),
            ),
        );
    }
    if agsize > dblocks {
        return Err(
            Error::InvalidParams(
                message2("agsize (", agsize, " blocks) too big, data area is ", dblocks, " blocks"),
            ),
        );
    }
    if agcount > MAX_AGNUMBER {
        return Err(Error::InvalidParams(message1("", agcount, " allocation groups is too many")));
    }
    proof {
        assert((1099511627775u64 >> blg) < 0x4000_0000u64) by (bit_vector)
            requires
                10 <= blg <= 14,
        ;
        assert(dblocks * bs <= u64::MAX) by {
            vstd::bits::lemma_u64_shr_is_div(device_size, blg);
            vstd::arithmetic::div_mod::lemma_fundamental_div_mod(device_size as int, bs as int);
            vstd::arithmetic::div_mod::lemma_mod_bound(device_size as int, bs as int);
            let db = device_size >> blg;
            assert(dblocks0 <= db);
            assert(dblocks <= dblocks0);
            assert(db * bs <= device_size) by {
                vstd::arithmetic::mul::lemma_mul_is_commutative(db as int, bs as int);
            }
            vstd::arithmetic::mul::lemma_mul_inequality(dblocks as int, db as int, bs as int);
        }
    }
    Ok((dblocks, agsize, agcount))
}

impl Geometry {
    /// Work out the geometry `mkfs.xfs` would choose for `params` on a device
    /// of `device_size` bytes with the given logical and physical sectors.
    pub fn compute(params: &Params, device_size: u64, logical_sector: u32, physical_sector: u32) -> (r: Result<Geometry, Error>)
        ensures
            match r {
                Ok(g) => spec_compute(*params, device_size, logical_sector, physical_sector) == Ok::<
                    GeometryView,
                    Refusal,
                >(g@) && g@.wf(),
                Err(e) => refusal_of(e) is Some && spec_compute(
                    *params,
                    device_size,
                    logical_sector,
                    physical_sector,
                ) == Err::<GeometryView, Refusal>(refusal_of(e)->0),
            },
    {
        reveal(spec_compute);
        let (blocksize, blocklog, sectsize, sectlog, inodesize, inodelog) = check_sizes(
            params,
            logical_sector,
            physical_sector,
        )?;
        let (dblocks, agsize, agcount) = check_ag_layout(params, device_size, blocksize, blocklog)?;
        let imaxpct = check_imaxpct(params, blocklog, dblocks)?;
        let label = check_label(params)?;
        let agblklog = log2_roundup(agsize);
        proof {
            vstd::arithmetic::power2::lemma_pow2_subtracts(inodelog as nat, blocklog as nat);
        }
        let mut g = Geometry {
            blocksize,
            blocklog,
            sectsize,
            sectlog,
            lsectsize: sectsize,
            lsectlog: sectlog,
            inodesize,
            inodelog,
            inopblock: blocksize / inodesize,
            inopblog: blocklog - inodelog,
            // validate_dirblocksize: the default only.
            dirblocklog: if blocksize < 4096 { 12 } else { blocklog },
            dblocks,
            agsize,
            agcount,
            agblklog,
            imaxpct,
            logblocks: 0,
            logagno: 0,
            log_agbno: 0,
            features: params.features,
            label,
        };
        assert(g@ =~= unplaced(*params, blocksize, sectsize, inodesize, dblocks, agsize, agcount, imaxpct, label@));
        let ghost g0 = g@;
        g.calculate_log_size()?;
        // validate_supported: what mkfs.xfs refuses without --unsupported.
        if g.dblocks < (300 * MIB) >> (blocklog as u64) {
            return Err(
                Error::InvalidParams(
                    "filesystem must be larger than 300MB (mkfs.xfs refuses smaller ones too)".to_owned(),
                ),
            );
        }
        if g.logblocks < (64 * MIB) >> (blocklog as u64) {
            return Err(Error::InvalidParams("log size must be at least 64MB".to_owned()));
        }
        if g.agcount < 2 {
            return Err(
                Error::InvalidParams("filesystem must have at least 2 superblocks for redundancy".to_owned()),
            );
        }
        proof {
            lemma_placed_log(g0);
            assert(imaxpct <= 100);
        }
        Ok(g)
    }
}


/// What placing the log keeps and bounds.
proof fn lemma_placed_log(g0: GeometryView)
    requires
        10 <= g0.blocklog <= 14,
        g0.blocksize == pow2(g0.blocklog as nat),
        512 <= g0.sectsize <= g0.blocksize,
        g0.agsize >= 1024,
        placed_log(g0) is Ok,
    ensures
        ({
            let g = placed_log(g0)->Ok_0;
            &&& g.logagno >= 1 ==> g.logblocks <= MAX_LOG_BLOCKS
            &&& g.logagno >= 1 ==> g.logblocks <= g0.ag_max_usable() - 1
            &&& g.logagno == g0.agcount / 2
            &&& g.log_agbno == g0.prealloc_blocks()
            &&& g =~= GeometryView { logblocks: g.logblocks, logagno: g.logagno, log_agbno: g.log_agbno, ..g0 }
        }),
{
    let bl = g0.blocklog as u64;
    let n = 4 * g0.sectsize;
    let d = g0.blocksize as int;
    lemma2_to64();
    assert(n / d <= 4 && (n / d == 4 ==> n % d == 0)) by (nonlinear_arith)
        requires
            0 <= n <= 4 * d,
            d > 0,
    ;
    let max_logblocks = g0.ag_max_usable() - 1;
    let l0 = ((g0.dblocks << bl) / 2048) >> bl;
    let l1 = max_of(l0 as int, ((64 * MIB) as u64 >> bl) as int);
    let l2 = min_of(l1, max_logblocks);
    let l3 = min_of(l2, MAX_LOG_BLOCKS as int);
    let l3u = l3 as u64;
    assert(0 <= l3 <= MAX_LOG_BLOCKS);
    assert(((l3u << bl) > MAX_LOG_BYTES) ==> (MAX_LOG_BYTES >> bl) < l3u) by (bit_vector)
        requires
            l3u <= 1048576u64,
            bl <= 14,
    ;
}


/// The sizes a well-formed geometry can have.
pub proof fn lemma_wf_sizes(g: GeometryView)
    requires
        g.wf(),
    ensures
        1024 <= g.blocksize <= 16384,
        512 <= g.sectsize <= g.blocksize,
        512 <= g.inodesize <= 2048,
        g.inodesize < g.blocksize,
        2 <= g.inopblock <= 32,
        1024 <= g.agsize < 0x4000_0000,
        g.agblklog <= 31,
        g.header_blocks() <= 4,
        g.prealloc_blocks() <= 11,
        g.agsize <= pow2(g.agblklog as nat),
        g.dirblocklog >= g.blocklog,
{
    lemma2_to64();
    if g.blocksize < 4096 && g.blocklog >= 12 {
        vstd::arithmetic::power2::lemma_pow2_strictly_increases(11, g.blocklog as nat);
    }
    let bl = g.blocklog as u64;
    assert((1099511627775u64 >> bl) < 0x4000_0000u64 && (16777216u64 >> bl) >= 1024u64) by (bit_vector)
        requires
            10 <= bl <= 14,
    ;
    if g.agblklog > 31 {
        vstd::arithmetic::power2::lemma_pow2_strictly_increases(31, (g.agblklog - 1) as nat);
    }
    if g.blocklog < 10 {
        vstd::arithmetic::power2::lemma_pow2_strictly_increases(g.blocklog as nat, 10);
    }
    if g.blocklog > 10 {
        vstd::arithmetic::power2::lemma_pow2_strictly_increases(10, g.blocklog as nat);
    }
    if g.blocklog < 14 {
        vstd::arithmetic::power2::lemma_pow2_strictly_increases(g.blocklog as nat, 14);
    }
    if g.sectlog < g.blocklog {
        vstd::arithmetic::power2::lemma_pow2_strictly_increases(g.sectlog as nat, g.blocklog as nat);
    }
    if g.sectlog > 9 {
        vstd::arithmetic::power2::lemma_pow2_strictly_increases(9, g.sectlog as nat);
    }
    if g.inodelog > 9 {
        vstd::arithmetic::power2::lemma_pow2_strictly_increases(9, g.inodelog as nat);
    }
    if g.inodelog < 11 {
        vstd::arithmetic::power2::lemma_pow2_strictly_increases(g.inodelog as nat, 11);
    }
    vstd::arithmetic::power2::lemma_pow2_strictly_increases(g.inodelog as nat, g.blocklog as nat);
    if g.inopblog > 1 {
        vstd::arithmetic::power2::lemma_pow2_strictly_increases(1, g.inopblog as nat);
    }
    if g.inopblog < 5 {
        vstd::arithmetic::power2::lemma_pow2_strictly_increases(g.inopblog as nat, 5);
    }
    let n = 4 * g.sectsize;
    let d = g.blocksize as int;
    assert(n / d <= 4 && (n / d == 4 ==> n % d == 0)) by (nonlinear_arith)
        requires
            0 <= n <= 4 * d,
            d > 0,
    ;
}


/// Blocks in the first `n` allocation groups of `g`.
pub open spec fn blocks_in_ags(g: GeometryView, n: nat) -> int
    decreases n,
{
    if n == 0 {
        0
    } else {
        blocks_in_ags(g, (n - 1) as nat) + g.ag_blocks(n - 1)
    }
}

proof fn lemma_full_ags(g: GeometryView, n: nat)
    requires
        n < g.agcount,
    ensures
        blocks_in_ags(g, n) == n * g.agsize,
    decreases n,
{
    if n > 0 {
        lemma_full_ags(g, (n - 1) as nat);
        assert(g.ag_blocks(n - 1) == g.agsize);
        assert((n - 1) * g.agsize + g.agsize == n * g.agsize) by (nonlinear_arith);
    } else {
        assert(n * g.agsize == 0) by (nonlinear_arith)
            requires
                n == 0,
        ;
    }
}

/// The allocation groups tile the data blocks: every AG but the last holds
/// `agsize` blocks, the last what is left, and together they hold
/// `dblocks`.
pub proof fn lemma_ag_blocks_sum(g: GeometryView)
    requires
        g.agcount >= 1,
        (g.agcount - 1) * g.agsize <= g.dblocks,
    ensures
        forall|a: int| 0 <= a < g.agcount - 1 ==> #[trigger] g.ag_blocks(a) == g.agsize,
        g.ag_blocks(g.agcount - 1) >= 0,
        blocks_in_ags(g, g.agcount as nat) == g.dblocks,
{
    lemma_full_ags(g, (g.agcount - 1) as nat);
}


/// An inode number is its block's filesystem block number shifted past the
/// inodes in a block, plus its slot.
proof fn lemma_ino_split(g: GeometryView, agno: int, agbno: int, slot: int)
    requires
        g.inopblock == pow2(g.inopblog as nat),
    ensures
        g.ino(agno, agbno, slot) == g.agb_to_fsb(agno, agbno) * pow2(g.inopblog as nat) + slot,
{
    let a = g.agblklog as nat;
    let i = g.inopblog as nat;
    vstd::arithmetic::power2::lemma_pow2_adds(a, i);
    let p = pow2(i) as int;
    let q = pow2(a) as int;
    assert(pow2((g.agblklog + g.inopblog) as nat) == pow2(a + i));
    assert(agno * (q * p) + agbno * p + slot == (agno * q + agbno) * p + slot) by (nonlinear_arith);
}

/// Inode numbers are the AG number, the AG block and the slot side by side:
/// within their fields, distinct places give distinct inode numbers.
pub proof fn lemma_ino_distinct(g: GeometryView, a1: int, b1: int, s1: int, a2: int, b2: int, s2: int)
    requires
        g.inopblock == pow2(g.inopblog as nat),
        0 <= b1 < pow2(g.agblklog as nat),
        0 <= b2 < pow2(g.agblklog as nat),
        0 <= s1 < pow2(g.inopblog as nat),
        0 <= s2 < pow2(g.inopblog as nat),
        g.ino(a1, b1, s1) == g.ino(a2, b2, s2),
    ensures
        a1 == a2,
        b1 == b2,
        s1 == s2,
{
    lemma_ino_split(g, a1, b1, s1);
    lemma_ino_split(g, a2, b2, s2);
    let p = pow2(g.inopblog as nat) as int;
    let q = pow2(g.agblklog as nat) as int;
    let x = g.ino(a1, b1, s1);
    let m1 = g.agb_to_fsb(a1, b1);
    let m2 = g.agb_to_fsb(a2, b2);
    vstd::arithmetic::div_mod::lemma_fundamental_div_mod_converse(x, p, m1, s1);
    vstd::arithmetic::div_mod::lemma_fundamental_div_mod_converse(x, p, m2, s2);
    vstd::arithmetic::div_mod::lemma_fundamental_div_mod_converse(m1, q, a1, b1);
    vstd::arithmetic::div_mod::lemma_fundamental_div_mod_converse(m1, q, a2, b2);
}


/// On a single disk, `calc_default_ag_geometry` gives a filesystem of at
/// least 128 MiB four AGs, each a quarter of it rounded up, until the
/// quarter would pass the largest AG; from 4 TiB on every AG is the
/// largest there is. The AG size is never above the largest.
#[verifier::spinoff_prover]
#[verifier::rlimit(40)]
pub proof fn lemma_default_ag_geometry(blocklog: u8, dblocks: u64)
    requires
        10 <= blocklog <= 14,
        dblocks >= ((128 * MIB) as u64) >> (blocklog as u64),
    ensures
        default_ag_geometry_spec(blocklog, dblocks, false).0 <= ag_max_blocks_spec(blocklog),
        dblocks >= ((4 * TIB) as u64) >> (blocklog as u64) ==> default_ag_geometry_spec(blocklog, dblocks, false).0
            == ag_max_blocks_spec(blocklog),
        dblocks + 4 <= ((4 * TIB) as u64) >> (blocklog as u64) ==> {
            &&& default_ag_geometry_spec(blocklog, dblocks, false).0 == (dblocks + 3) / 4
            &&& default_ag_geometry_spec(blocklog, dblocks, false).1 == 4
        },
        default_ag_geometry_spec(blocklog, dblocks, false).0 >= dblocks / 4 || default_ag_geometry_spec(
            blocklog,
            dblocks,
            false,
        ).0 == ag_max_blocks_spec(blocklog),
        dblocks < ((4 * TIB) as u64) >> (blocklog as u64) ==> default_ag_geometry_spec(blocklog, dblocks, false).0
            >= dblocks / 4,
{
    let bl = blocklog as u64;
    lemma2_to64();
    vstd::bits::lemma_u64_shr_is_div((4 * TIB) as u64, bl);
    vstd::bits::lemma_u64_shr_is_div((32 * TIB) as u64, bl);
    vstd::bits::lemma_u64_shr_is_div((AG_MAX_BYTES - 1) as u64, bl);
    vstd::bits::lemma_u64_shr_is_div((128 * MIB) as u64, bl);
    let t4 = ((4 * TIB) as u64) >> bl;
    let max = ag_max_blocks_spec(blocklog);
    let t32 = ((32 * TIB) as u64) >> bl;
    assert(max + 1 == t4 / 4 && t4 % 4 == 0 && t4 < t32) by {
        if blocklog == 10 {
            assert(pow2(bl as nat) == 1024);
            assert(((4 * TIB) as u64) as nat == 4398046511104nat && ((AG_MAX_BYTES - 1) as u64) as nat == 1099511627775nat && ((32 * TIB) as u64) as nat == 35184372088832nat);
            vstd::arithmetic::div_mod::lemma_fundamental_div_mod_converse_div(4398046511104, 1024, 4294967296, 0);
            assert(t4 == 4294967296nat);
            vstd::arithmetic::div_mod::lemma_fundamental_div_mod_converse_div(1099511627775, 1024, 1073741823, 1023);
            assert(max == 1073741823nat);
            vstd::arithmetic::div_mod::lemma_fundamental_div_mod_converse_div(35184372088832, 1024, 34359738368, 0);
            assert(t32 == 34359738368nat);
        } else if blocklog == 11 {
            assert(pow2(bl as nat) == 2048);
            assert(((4 * TIB) as u64) as nat == 4398046511104nat && ((AG_MAX_BYTES - 1) as u64) as nat == 1099511627775nat && ((32 * TIB) as u64) as nat == 35184372088832nat);
            vstd::arithmetic::div_mod::lemma_fundamental_div_mod_converse_div(4398046511104, 2048, 2147483648, 0);
            assert(t4 == 2147483648nat);
            vstd::arithmetic::div_mod::lemma_fundamental_div_mod_converse_div(1099511627775, 2048, 536870911, 2047);
            assert(max == 536870911nat);
            vstd::arithmetic::div_mod::lemma_fundamental_div_mod_converse_div(35184372088832, 2048, 17179869184, 0);
            assert(t32 == 17179869184nat);
        } else if blocklog == 12 {
            assert(pow2(bl as nat) == 4096);
            assert(((4 * TIB) as u64) as nat == 4398046511104nat && ((AG_MAX_BYTES - 1) as u64) as nat == 1099511627775nat && ((32 * TIB) as u64) as nat == 35184372088832nat);
            vstd::arithmetic::div_mod::lemma_fundamental_div_mod_converse_div(4398046511104, 4096, 1073741824, 0);
            assert(t4 == 1073741824nat);
            vstd::arithmetic::div_mod::lemma_fundamental_div_mod_converse_div(1099511627775, 4096, 268435455, 4095);
            assert(max == 268435455nat);
            vstd::arithmetic::div_mod::lemma_fundamental_div_mod_converse_div(35184372088832, 4096, 8589934592, 0);
            assert(t32 == 8589934592nat);
        } else if blocklog == 13 {
            assert(pow2(bl as nat) == 8192);
            assert(((4 * TIB) as u64) as nat == 4398046511104nat && ((AG_MAX_BYTES - 1) as u64) as nat == 1099511627775nat && ((32 * TIB) as u64) as nat == 35184372088832nat);
            vstd::arithmetic::div_mod::lemma_fundamental_div_mod_converse_div(4398046511104, 8192, 536870912, 0);
            assert(t4 == 536870912nat);
            vstd::arithmetic::div_mod::lemma_fundamental_div_mod_converse_div(1099511627775, 8192, 134217727, 8191);
            assert(max == 134217727nat);
            vstd::arithmetic::div_mod::lemma_fundamental_div_mod_converse_div(35184372088832, 8192, 4294967296, 0);
            assert(t32 == 4294967296nat);
        } else if blocklog == 14 {
            assert(pow2(bl as nat) == 16384);
            assert(((4 * TIB) as u64) as nat == 4398046511104nat && ((AG_MAX_BYTES - 1) as u64) as nat == 1099511627775nat && ((32 * TIB) as u64) as nat == 35184372088832nat);
            vstd::arithmetic::div_mod::lemma_fundamental_div_mod_converse_div(4398046511104, 16384, 268435456, 0);
            assert(t4 == 268435456nat);
            vstd::arithmetic::div_mod::lemma_fundamental_div_mod_converse_div(1099511627775, 16384, 67108863, 16383);
            assert(max == 67108863nat);
            vstd::arithmetic::div_mod::lemma_fundamental_div_mod_converse_div(35184372088832, 16384, 2147483648, 0);
            assert(t32 == 2147483648nat);
        } else {
            assert(false);
        }
    }
    let d = dblocks;
    assert(d >> 2u64 == d / 4 && d & 3u64 == d % 4) by (bit_vector);
    assert((1u64 << 2u64) - 1 == 3) by (bit_vector);
    let (agsize, agcount) = default_ag_geometry_spec(blocklog, dblocks, false);
    if d < t4 {
        assert(agsize == if d % 4 != 0 && d / 4 < max { d / 4 + 1 } else { (d / 4) as int });
        if d + 4 <= t4 {
            assert(d % 4 != 0 ==> d / 4 < max);
            assert(agsize == (d + 3) / 4);
            assert(agcount == ceil_div(d as int, agsize as int));
            assert(agsize > 0);
            let a = agsize as int;
            assert(3 * a < d && d <= 4 * a);
            assert(ceil_div(d as int, a) == 4) by (nonlinear_arith)
                requires
                    a > 0,
                    3 * a < d <= 4 * a,
            {
                let q = (d as int) / a;
                let r = (d as int) % a;
                assert(d == a * q + r && 0 <= r < a) by {
                    vstd::arithmetic::div_mod::lemma_fundamental_div_mod(d as int, a);
                }
            }
        }
    }
}


/// The geometry has exactly the features the parameters ask for.
#[verifier::spinoff_prover]
#[verifier::rlimit(40)]
pub proof fn lemma_compute_keeps_features(p: Params, device_size: u64, logical_sector: u32, physical_sector: u32)
    ensures
        spec_compute(p, device_size, logical_sector, physical_sector) matches Ok(g) ==> g.features == p.features,
{
    reveal(spec_compute);
    if let Ok((bs, ss, isz)) = spec_sizes(p, logical_sector, physical_sector) {
        if let Ok((dblocks, agsize, agcount)) = spec_ag_layout(p, device_size, bs) {
            let blocklog = log2(bs as int) as u8;
            if let (Some(imaxpct), Some(label)) = (chosen_imaxpct(p, blocklog, dblocks), chosen_label(p)) {
                let u = unplaced(p, bs, ss, isz, dblocks, agsize, agcount, imaxpct, label);
                assert(u.features == p.features);
                if let Ok(g) = placed_log(u) {
                    assert(g.features == u.features);
                }
            }
        }
    }
}


proof fn lemma_block_logs(bs: u32)
    requires
        bs == 1024 || bs == 2048 || bs == 4096 || bs == 8192 || bs == 16384,
    ensures
        10 <= log2(bs as int) <= 14,
        pow2(log2(bs as int)) == bs,
{
    reveal_with_fuel(log2, 16);
    lemma2_to64();
}

/// With no size, AG size or AG count asked for, the AG layout of a
/// filesystem of at least 128 MiB is never refused: four AGs, each a
/// quarter of the data blocks rounded up, below 4 TiB (but for the last
/// three block counts before it); from 4 TiB on, AGs of the largest size.
#[verifier::spinoff_prover]
#[verifier::rlimit(40)]
pub proof fn lemma_default_ag_layout(p: Params, device_size: u64, bs: u32)
    requires
        p.size is None,
        p.agsize is None,
        p.agcount is None,
        bs == 1024 || bs == 2048 || bs == 4096 || bs == 8192 || bs == 16384,
    ensures
        ({
            let bl = log2(bs as int) as u8;
            let d = device_size >> (bl as u64);
            &&& d >= ((128 * MIB) as u64) >> (bl as u64) ==> spec_ag_layout(p, device_size, bs) is Ok
            &&& d >= ((4 * TIB) as u64) >> (bl as u64) ==> spec_ag_layout(p, device_size, bs)->Ok_0.1
                == ag_max_blocks_spec(bl)
            &&& d >= ((128 * MIB) as u64) >> (bl as u64) && d + 4 <= ((4 * TIB) as u64) >> (bl as u64) ==> {
                &&& spec_ag_layout(p, device_size, bs)->Ok_0.0 == d
                &&& spec_ag_layout(p, device_size, bs)->Ok_0.1 == (d + 3) / 4
                &&& spec_ag_layout(p, device_size, bs)->Ok_0.2 == 4
            }
        }),
{
    lemma_block_logs(bs);
    let bl = log2(bs as int) as u8;
    let blu = bl as u64;
    let d = device_size >> blu;
    lemma2_to64();
    vstd::bits::lemma_u64_shr_is_div(device_size, blu);
    vstd::bits::lemma_u64_shr_is_div((128 * MIB) as u64, blu);
    vstd::bits::lemma_u64_shr_is_div(AG_MIN_BYTES, blu);
    vstd::bits::lemma_u64_shr_is_div((AG_MAX_BYTES - 1) as u64, blu);
    vstd::bits::lemma_u64_shr_is_div((4 * TIB) as u64, blu);
    let pw = pow2(bl as nat) as int;
    assert(pw == bs);
    let min = ag_min_blocks_spec(bl) as int;
    let max = ag_max_blocks_spec(bl) as int;
    let m128 = (((128 * MIB) as u64) >> blu) as int;
    assert(min * 8 == m128 && min >= 1024 && max >= 0x4000000 - 1 && d <= 0x40_0000_0000_0000) by {
        assert(((128 * MIB) as u64) as int == 134217728 && AG_MIN_BYTES as int == 16777216);
        assert(((AG_MAX_BYTES - 1) as u64) as int == 1099511627775);
        vstd::arithmetic::div_mod::lemma_div_is_ordered(device_size as int, 0xffff_ffff_ffff_ffff, pw);
        if bs == 1024 {
            vstd::arithmetic::div_mod::lemma_fundamental_div_mod_converse_div(134217728, 1024, 131072, 0);
            vstd::arithmetic::div_mod::lemma_fundamental_div_mod_converse_div(16777216, 1024, 16384, 0);
            vstd::arithmetic::div_mod::lemma_fundamental_div_mod_converse_div(1099511627775, 1024, 1073741823, 1023);
            vstd::arithmetic::div_mod::lemma_fundamental_div_mod_converse_div(0xffff_ffff_ffff_ffff, 1024, 0x3f_ffff_ffff_ffff, 1023);
        } else if bs == 2048 {
            vstd::arithmetic::div_mod::lemma_fundamental_div_mod_converse_div(134217728, 2048, 65536, 0);
            vstd::arithmetic::div_mod::lemma_fundamental_div_mod_converse_div(16777216, 2048, 8192, 0);
            vstd::arithmetic::div_mod::lemma_fundamental_div_mod_converse_div(1099511627775, 2048, 536870911, 2047);
            vstd::arithmetic::div_mod::lemma_fundamental_div_mod_converse_div(0xffff_ffff_ffff_ffff, 2048, 0x1f_ffff_ffff_ffff, 2047);
        } else if bs == 4096 {
            vstd::arithmetic::div_mod::lemma_fundamental_div_mod_converse_div(134217728, 4096, 32768, 0);
            vstd::arithmetic::div_mod::lemma_fundamental_div_mod_converse_div(16777216, 4096, 4096, 0);
            vstd::arithmetic::div_mod::lemma_fundamental_div_mod_converse_div(1099511627775, 4096, 268435455, 4095);
            vstd::arithmetic::div_mod::lemma_fundamental_div_mod_converse_div(0xffff_ffff_ffff_ffff, 4096, 0xf_ffff_ffff_ffff, 4095);
        } else if bs == 8192 {
            vstd::arithmetic::div_mod::lemma_fundamental_div_mod_converse_div(134217728, 8192, 16384, 0);
            vstd::arithmetic::div_mod::lemma_fundamental_div_mod_converse_div(16777216, 8192, 2048, 0);
            vstd::arithmetic::div_mod::lemma_fundamental_div_mod_converse_div(1099511627775, 8192, 134217727, 8191);
            vstd::arithmetic::div_mod::lemma_fundamental_div_mod_converse_div(0xffff_ffff_ffff_ffff, 8192, 0x7_ffff_ffff_ffff, 8191);
        } else {
            vstd::arithmetic::div_mod::lemma_fundamental_div_mod_converse_div(134217728, 16384, 8192, 0);
            vstd::arithmetic::div_mod::lemma_fundamental_div_mod_converse_div(16777216, 16384, 1024, 0);
            vstd::arithmetic::div_mod::lemma_fundamental_div_mod_converse_div(1099511627775, 16384, 67108863, 16383);
            vstd::arithmetic::div_mod::lemma_fundamental_div_mod_converse_div(0xffff_ffff_ffff_ffff, 16384, 0x3_ffff_ffff_ffff, 16383);
        }
    }
    if d >= m128 {
        lemma_default_ag_geometry(bl, d);
        let (a, n) = default_ag_geometry_spec(bl, d, false);
        assert(chosen_dblocks(p, device_size, bl) == Some(d));
        assert(chosen_ag_geometry(p, bs, bl, d) == Some((a, n)));
        let t4 = (((4 * TIB) as u64) >> blu) as int;
        assert(t4 == 4 * (max + 1)) by {
            assert(((4 * TIB) as u64) as int == 4398046511104);
            if bs == 1024 {
                vstd::arithmetic::div_mod::lemma_fundamental_div_mod_converse_div(4398046511104, 1024, 4294967296, 0);
            } else if bs == 2048 {
                vstd::arithmetic::div_mod::lemma_fundamental_div_mod_converse_div(4398046511104, 2048, 2147483648, 0);
            } else if bs == 4096 {
                vstd::arithmetic::div_mod::lemma_fundamental_div_mod_converse_div(4398046511104, 4096, 1073741824, 0);
            } else if bs == 8192 {
                vstd::arithmetic::div_mod::lemma_fundamental_div_mod_converse_div(4398046511104, 8192, 536870912, 0);
            } else {
                vstd::arithmetic::div_mod::lemma_fundamental_div_mod_converse_div(4398046511104, 16384, 268435456, 0);
            }
        }
        assert(a >= 2 * min);
        assert(a > 0);
        let q = (d as int) / (a as int);
        let r = (d as int) % (a as int);
        vstd::arithmetic::div_mod::lemma_fundamental_div_mod(d as int, a as int);
        assert(n as int == q + (if r != 0 { 1int } else { 0 }));
        if d + 4 <= (((4 * TIB) as u64) >> blu) {
            assert(4 * a >= d && 3 * a < d && a >= 2 * min);
            if d == 4 * a {
                vstd::arithmetic::div_mod::lemma_fundamental_div_mod_converse(d as int, a as int, 4, 0);
            } else {
                vstd::arithmetic::div_mod::lemma_fundamental_div_mod_converse(d as int, a as int, 3, d - 3 * a);
            }
            assert(d % a == 0 || d % a >= min);
            assert(aligned_ag_geometry(p, bl, d, a, n) == Some((d, n)));
        }
        if d >= t4 {
            assert(a as int == max);
        }
        assert(d >= 8 * min);
        assert(a >= min);
        assert(q >= 1) by (nonlinear_arith)
            requires
                d == a * q + r,
                0 <= r < a,
                a <= d,
        ;
        assert(n >= 1);
        assert(q <= d) by (nonlinear_arith)
            requires
                d == a * q + r,
                0 <= r,
                a >= 1,
                q >= 0,
        ;
        let al = aligned_ag_geometry(p, bl, d, a, n);
        assert(al is Some);
        let (d2, n2) = al->Some_0;
        assert(q * a <= d) by (nonlinear_arith)
            requires
                d == a * q + r,
                r >= 0,
        ;
        if d % a != 0 && d % a < min {
            assert(n - 1 == q);
            assert(((n - 1) * a) as u64 == (n - 1) * a);
            assert(n2 == n - 1 && d2 == (n - 1) * a);
            assert(n - 1 == q);
            assert(d2 as int == q * a);
            assert(q * a >= a) by (nonlinear_arith)
                requires
                    q >= 1,
                    a >= 0,
            ;
        } else {
            assert(d2 == d);
        }
        assert(d2 >= a);
        assert(n2 <= MAX_AGNUMBER) by {
            if a as int == max {
                assert(q * max <= d) by (nonlinear_arith)
                    requires
                        d == a * q + r,
                        r >= 0,
                        a == max,
                ;
                assert(q <= 0x1000_0010int) by (nonlinear_arith)
                    requires
                        q * max <= d,
                        d <= 0x40_0000_0000_0000,
                        max >= 0x3ff_ffff,
                        q >= 0,
                ;
            } else {
                assert(d < t4 && t4 <= 0x1_0000_0000);
                assert(q * a <= d) by (nonlinear_arith)
                    requires
                        d == a * q + r,
                        r >= 0,
                ;
                assert(q <= 0x1_0000_0000int / 2048) by (nonlinear_arith)
                    requires
                        q * a <= d,
                        d < 0x1_0000_0000int,
                        a >= 2048,
                        q >= 0,
                ;
            }
        }
        assert(!ag_geometry_refused(bl, a, n2, d2));
    }
}


proof fn lemma_blocks_below(d: u64, x: u64, bl: u8)
    requires
        10 <= bl <= 14,
        x % 0x4000 == 0,
    ensures
        (d < (x >> (bl as u64))) == (d * pow2(bl as nat) < x),
{
    lemma2_to64();
    vstd::bits::lemma_u64_shr_is_div(x, bl as u64);
    let p = pow2(bl as nat) as int;
    vstd::arithmetic::power2::lemma_pow2_adds(bl as nat, (14 - bl) as nat);
    let k = pow2((14 - bl) as nat) as int;
    vstd::arithmetic::power2::lemma_pow2_pos((14 - bl) as nat);
    vstd::arithmetic::power2::lemma_pow2_pos(bl as nat);
    assert(p * k == 0x4000);
    let m = (x as int) / 0x4000;
    vstd::arithmetic::div_mod::lemma_fundamental_div_mod(x as int, 0x4000);
    assert(x == m * 0x4000);
    assert(x == (m * k) * p) by (nonlinear_arith)
        requires
            x == m * 0x4000,
            p * k == 0x4000,
    ;
    vstd::arithmetic::div_mod::lemma_fundamental_div_mod_converse_div(x as int, p, m * k, 0);
    assert((d < m * k) == (d * p < (m * k) * p)) by (nonlinear_arith)
        requires
            p > 0,
            m * k >= 0,
    ;
}

/// With no inode space cap asked for, the cap is a quarter of the space
/// on filesystems under 1 TiB, 5% under 50 TiB, and 1% from there on.
pub proof fn lemma_default_imaxpct(p: Params, blocklog: u8, dblocks: u64)
    requires
        p.imaxpct is None,
        10 <= blocklog <= 14,
    ensures
        ({
            let bytes = dblocks * pow2(blocklog as nat);
            chosen_imaxpct(p, blocklog, dblocks) == Some(if bytes < TIB {
                25u8
            } else if bytes < 50 * TIB {
                5u8
            } else {
                1u8
            })
        }),
{
    lemma_blocks_below(dblocks, TIB, blocklog);
    lemma_blocks_below(dblocks, (50 * TIB) as u64, blocklog);
}

/// `ceil_div(n, d)` is the fewest pieces of `d` that cover `n`.
proof fn lemma_ceil_div_covers(n: int, d: int)
    requires
        n >= 0,
        d > 0,
    ensures
        (ceil_div(n, d) - 1) * d < n <= ceil_div(n, d) * d,
        ceil_div(n, d) >= 0,
{
    let q = n / d;
    let r = n % d;
    vstd::arithmetic::div_mod::lemma_fundamental_div_mod(n, d);
    assert(0 <= r < d);
    assert(q >= 0) by (nonlinear_arith)
        requires n >= 0, d > 0, n == d * q + r, 0 <= r < d;
    if r != 0 {
        assert((q + 1 - 1) * d < n <= (q + 1) * d) by (nonlinear_arith)
            requires n == d * q + r, 0 < r < d;
    } else {
        assert((q - 1) * d < n <= q * d) by (nonlinear_arith)
            requires n == d * q + r, r == 0, d > 0;
    }
}

/// An AG size asked for in bytes is taken if it is a whole, nonzero
/// number of blocks, and the AG count is then the fewest AGs of that size
/// that cover the data blocks. An AG count asked for (with no size) is
/// taken if it is nonzero, and the AG size is then the smallest that lets
/// that many AGs cover the data blocks.
#[verifier::spinoff_prover]
pub proof fn lemma_asked_ag_geometry(p: Params, bs: u32, blocklog: u8, dblocks: u64)
    requires
        bs > 0,
    ensures
        p.agsize matches Some(bytes) ==> {
            &&& (chosen_ag_geometry(p, bs, blocklog, dblocks) is Some <==> bytes % (bs as u64) == 0 && bytes >= bs)
            &&& (chosen_ag_geometry(p, bs, blocklog, dblocks) matches Some((s, c)) ==> {
                &&& s * bs == bytes
                &&& (c - 1) * s < dblocks <= c * s
            })
        },
        p.agsize is None ==> (p.agcount matches Some(n) ==> {
            &&& (chosen_ag_geometry(p, bs, blocklog, dblocks) is Some <==> n > 0)
            &&& (chosen_ag_geometry(p, bs, blocklog, dblocks) matches Some((s, c)) ==> {
                &&& c == n
                &&& (s - 1) * n < dblocks <= s * n
            })
        }),
{
    match p.agsize {
        Some(bytes) => {
            let s = bytes / (bs as u64);
            vstd::arithmetic::div_mod::lemma_fundamental_div_mod(bytes as int, bs as int);
            assert((s == 0) == (bytes < bs)) by (nonlinear_arith)
                requires bytes == bs * s + bytes % (bs as u64), 0 <= bytes % (bs as u64) < bs, s >= 0;
            if bytes % (bs as u64) == 0 && s > 0 {
                assert(s * bs == bytes) by (nonlinear_arith)
                    requires bytes == bs * s + bytes % (bs as u64), bytes % (bs as u64) == 0;
                lemma_ceil_div_covers(dblocks as int, s as int);
                let c = ceil_div(dblocks as int, s as int);
                assert(c <= dblocks) by (nonlinear_arith)
                    requires (c - 1) * s < dblocks, s >= 1, c >= 0;
            }
        },
        None => {
            if let Some(n) = p.agcount {
                if n > 0 {
                    lemma_ceil_div_covers(dblocks as int, n as int);
                    let s = ceil_div(dblocks as int, n as int);
                    assert(s <= dblocks) by (nonlinear_arith)
                        requires (s - 1) * n < dblocks, n >= 1, s >= 0;
                }
            }
        },
    }
}

/// A geometry takes the block and inode sizes asked for, else 4 KiB
/// blocks and 512-byte inodes. With no sector size asked for, its sector
/// is the device's physical sector (512 bytes at least) where that is
/// at most 32 KiB and fits in a block, else the logical one.
#[verifier::spinoff_prover]
#[verifier::rlimit(40)]
pub proof fn lemma_chosen_sizes(p: Params, device_size: u64, logical_sector: u32, physical_sector: u32)
    ensures
        spec_compute(p, device_size, logical_sector, physical_sector) matches Ok(g) ==> {
            &&& g.blocksize == (match p.block_size { Some(b) => b, None => 4096u32 })
            &&& g.inodesize == (match p.inode_size { Some(i) => i, None => 512u32 })
            &&& (p.sector_size matches Some(s) ==> g.sectsize == s)
            &&& (p.sector_size is None ==> {
                let logical = if logical_sector >= 512 { logical_sector } else { 512u32 };
                let physical = if physical_sector >= logical { physical_sector } else { logical };
                g.sectsize == if physical <= 32768 && physical <= g.blocksize { physical } else { logical }
            })
        },
{
    reveal(spec_compute);
    if let Ok((bs, ss, isz)) = spec_sizes(p, logical_sector, physical_sector) {
        if let Ok((dblocks, agsize, agcount)) = spec_ag_layout(p, device_size, bs) {
            let blocklog = log2(bs as int) as u8;
            if let (Some(imaxpct), Some(label)) = (chosen_imaxpct(p, blocklog, dblocks), chosen_label(p)) {
                let u = unplaced(p, bs, ss, isz, dblocks, agsize, agcount, imaxpct, label);
                assert(u.blocksize == bs && u.inodesize == isz && u.sectsize == ss);
                if let Ok(g) = placed_log(u) {
                    assert(g.blocksize == bs && g.inodesize == isz && g.sectsize == ss);
                }
            }
        }
    }
}

} // verus!
