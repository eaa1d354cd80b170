//! `sb_versionnum` bits, and the feature words that follow it.
use vstd::prelude::*;

verus! {

pub const V5: u16 = 5;
pub const ATTRBIT: u16 = 0x10;
pub const NLINKBIT: u16 = 0x20;
pub const ALIGNBIT: u16 = 0x80;
pub const DALIGNBIT: u16 = 0x100;
pub const LOGV2BIT: u16 = 0x400;
pub const SECTORBIT: u16 = 0x800;
pub const EXTFLGBIT: u16 = 0x1000;
pub const DIRV2BIT: u16 = 0x2000;
pub const MOREBITSBIT: u16 = 0x8000;
/// `sb_features2` bits.
pub const F2_LAZYSBCOUNT: u32 = 0x2;
pub const F2_ATTR2: u32 = 0x8;
pub const F2_PROJID32: u32 = 0x80;
pub const F2_CRC: u32 = 0x100;
/// `sb_features_ro_compat` bits.
pub const RO_FINOBT: u32 = 0x1;
pub const RO_RMAPBT: u32 = 0x2;
pub const RO_REFLINK: u32 = 0x4;
pub const RO_INOBTCNT: u32 = 0x8;
/// `sb_features_incompat` bits.
pub const IN_FTYPE: u32 = 0x1;
pub const IN_SPINODES: u32 = 0x2;
pub const IN_META_UUID: u32 = 0x4;
pub const IN_BIGTIME: u32 = 0x8;
pub const IN_NEEDSREPAIR: u32 = 0x10;
pub const IN_NREXT64: u32 = 0x20;

} // verus!
