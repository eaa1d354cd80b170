//! Field offsets in `struct xfs_agi`.
use vstd::prelude::*;

verus! {

pub const MAGICNUM: usize = 0;
pub const VERSIONNUM: usize = 4;
pub const SEQNO: usize = 8;
pub const LENGTH: usize = 12;
pub const COUNT: usize = 16;
pub const ROOT: usize = 20;
pub const LEVEL: usize = 24;
pub const FREECOUNT: usize = 28;
pub const NEWINO: usize = 32;
pub const DIRINO: usize = 36;
pub const UNLINKED: usize = 40;
pub const UUID: usize = 296;
pub const CRC: usize = 312;
pub const LSN: usize = 320;
pub const FREE_ROOT: usize = 328;
pub const FREE_LEVEL: usize = 332;
pub const IBLOCKS: usize = 336;
pub const FBLOCKS: usize = 340;
pub const END: usize = 344;

} // verus!
