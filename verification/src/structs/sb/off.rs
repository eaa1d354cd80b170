//! Field offsets in `struct xfs_dsb`.
use vstd::prelude::*;

verus! {

pub const MAGICNUM: usize = 0;
pub const BLOCKSIZE: usize = 4;
pub const DBLOCKS: usize = 8;
pub const RBLOCKS: usize = 16;
pub const REXTENTS: usize = 24;
pub const UUID: usize = 32;
pub const LOGSTART: usize = 48;
pub const ROOTINO: usize = 56;
pub const RBMINO: usize = 64;
pub const RSUMINO: usize = 72;
pub const REXTSIZE: usize = 80;
pub const AGBLOCKS: usize = 84;
pub const AGCOUNT: usize = 88;
pub const RBMBLOCKS: usize = 92;
pub const LOGBLOCKS: usize = 96;
pub const VERSIONNUM: usize = 100;
pub const SECTSIZE: usize = 102;
pub const INODESIZE: usize = 104;
pub const INOPBLOCK: usize = 106;
pub const FNAME: usize = 108;
pub const BLOCKLOG: usize = 120;
pub const SECTLOG: usize = 121;
pub const INODELOG: usize = 122;
pub const INOPBLOG: usize = 123;
pub const AGBLKLOG: usize = 124;
pub const REXTSLOG: usize = 125;
pub const INPROGRESS: usize = 126;
pub const IMAX_PCT: usize = 127;
pub const ICOUNT: usize = 128;
pub const IFREE: usize = 136;
pub const FDBLOCKS: usize = 144;
pub const FREXTENTS: usize = 152;
pub const UQUOTINO: usize = 160;
pub const GQUOTINO: usize = 168;
pub const QFLAGS: usize = 176;
pub const FLAGS: usize = 178;
pub const SHARED_VN: usize = 179;
pub const INOALIGNMT: usize = 180;
pub const UNIT: usize = 184;
pub const WIDTH: usize = 188;
pub const DIRBLKLOG: usize = 192;
pub const LOGSECTLOG: usize = 193;
pub const LOGSECTSIZE: usize = 194;
pub const LOGSUNIT: usize = 196;
pub const FEATURES2: usize = 200;
pub const BAD_FEATURES2: usize = 204;
pub const FEATURES_COMPAT: usize = 208;
pub const FEATURES_RO_COMPAT: usize = 212;
pub const FEATURES_INCOMPAT: usize = 216;
pub const FEATURES_LOG_INCOMPAT: usize = 220;
pub const CRC: usize = 224;
pub const SPINO_ALIGN: usize = 228;
pub const PQUOTINO: usize = 232;
pub const LSN: usize = 240;
pub const META_UUID: usize = 248;
/// End of the fields written for a filesystem without metadir.
pub const END: usize = 264;

} // verus!
