//! An XFS formatter: what `mkfs.xfs` chooses for a device (`geometry`), the
//! byte-exact on-disk structures it writes (`structs`), the end state of
//! every allocation group and the list of writes that lay a filesystem
//! down (`format`), the checksum XFS uses (`crc`), a sparse in-memory
//! device (`device`), and a reader that turns metadata back into named
//! fields (`inspect`, `compare`).
pub mod bytes;
pub mod cli;
pub mod compare;
pub mod crc;
pub mod device;
pub mod error;
pub mod geometry;
pub mod inspect;
pub mod structs;
pub mod text;
pub mod format;
