//! Magic numbers of the v5 per-AG btrees.
use vstd::prelude::*;

verus! {

/// By-block free space, "AB3B".
pub const BNO: u32 = 0x4142_3342;
/// By-size free space, "AB3C".
pub const CNT: u32 = 0x4142_3343;
/// Inodes, "IAB3".
pub const INO: u32 = 0x4941_4233;
/// Free inodes, "FIB3".
pub const FINO: u32 = 0x4649_4233;
/// Reverse mappings, "RMB3".
pub const RMAP: u32 = 0x524d_4233;
/// Reference counts, "R3FC".
pub const REFC: u32 = 0x5233_4643;

} // verus!
