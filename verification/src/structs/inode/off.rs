//! Field offsets in `struct xfs_dinode`.
use vstd::prelude::*;

verus! {

pub const MAGIC: usize = 0;
pub const MODE: usize = 2;
pub const VERSION: usize = 4;
pub const FORMAT: usize = 5;
pub const METATYPE: usize = 6;
pub const UID: usize = 8;
pub const GID: usize = 12;
pub const NLINK: usize = 16;
pub const PROJID_LO: usize = 20;
pub const PROJID_HI: usize = 22;
/// `di_big_nextents` with nrext64, padding otherwise.
pub const BIG_NEXTENTS: usize = 24;
pub const ATIME: usize = 32;
pub const MTIME: usize = 40;
pub const CTIME: usize = 48;
pub const SIZE: usize = 56;
pub const NBLOCKS: usize = 64;
pub const EXTSIZE: usize = 72;
/// `di_nextents` (u32), or `di_big_anextents` with nrext64.
pub const NEXTENTS: usize = 76;
/// `di_anextents` (u16), or padding with nrext64.
pub const ANEXTENTS: usize = 80;
pub const FORKOFF: usize = 82;
pub const AFORMAT: usize = 83;
pub const DMEVMASK: usize = 84;
pub const DMSTATE: usize = 88;
pub const FLAGS: usize = 90;
pub const GEN: usize = 92;
pub const NEXT_UNLINKED: usize = 96;
pub const CRC: usize = 100;
pub const CHANGECOUNT: usize = 104;
pub const LSN: usize = 112;
pub const FLAGS2: usize = 120;
pub const COWEXTSIZE: usize = 128;
pub const CRTIME: usize = 144;
pub const INO: usize = 152;
pub const UUID: usize = 160;

} // verus!
