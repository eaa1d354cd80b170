//! The fields of each on-disk structure, in the order a dump lists them.
use vstd::prelude::*;
use crate::inspect::Dump;
use crate::inspect::render::{add_row, all_fit, push_rows, rows_fields, rows_view, Render, Row, RowView};
use crate::structs::ag::{agf, agfl, agi};
use crate::structs::btree::off as bto;
use crate::structs::inode::off as ino;
use crate::structs::inode::CORE_SIZE;
use crate::structs::log::off as lo;
use crate::structs::sb::off as sbo;

verus! {

/// The fields of a superblock of `len` bytes.
pub open spec fn sb_rows(len: usize) -> Seq<RowView> {
    seq![
        ("magicnum"@, Render::Dec(sbo::MAGICNUM, 4)),
        ("blocksize"@, Render::Dec(sbo::BLOCKSIZE, 4)),
        ("dblocks"@, Render::Dec(sbo::DBLOCKS, 8)),
        ("rblocks"@, Render::Dec(sbo::RBLOCKS, 8)),
        ("rextents"@, Render::Dec(sbo::REXTENTS, 8)),
        ("uuid"@, Render::Uuid(sbo::UUID)),
        ("logstart"@, Render::Dec(sbo::LOGSTART, 8)),
        ("rootino"@, Render::Dec(sbo::ROOTINO, 8)),
        ("rbmino"@, Render::Dec(sbo::RBMINO, 8)),
        ("rsumino"@, Render::Dec(sbo::RSUMINO, 8)),
        ("rextsize"@, Render::Dec(sbo::REXTSIZE, 4)),
        ("agblocks"@, Render::Dec(sbo::AGBLOCKS, 4)),
        ("agcount"@, Render::Dec(sbo::AGCOUNT, 4)),
        ("rbmblocks"@, Render::Dec(sbo::RBMBLOCKS, 4)),
        ("logblocks"@, Render::Dec(sbo::LOGBLOCKS, 4)),
        ("versionnum"@, Render::Hex(sbo::VERSIONNUM, 2)),
        ("sectsize"@, Render::Dec(sbo::SECTSIZE, 2)),
        ("inodesize"@, Render::Dec(sbo::INODESIZE, 2)),
        ("inopblock"@, Render::Dec(sbo::INOPBLOCK, 2)),
        ("fname"@, Render::Trim(sbo::FNAME, (sbo::FNAME + 12) as usize)),
        ("blocklog"@, Render::Dec(sbo::BLOCKLOG, 1)),
        ("sectlog"@, Render::Dec(sbo::SECTLOG, 1)),
        ("inodelog"@, Render::Dec(sbo::INODELOG, 1)),
        ("inopblog"@, Render::Dec(sbo::INOPBLOG, 1)),
        ("agblklog"@, Render::Dec(sbo::AGBLKLOG, 1)),
        ("rextslog"@, Render::Dec(sbo::REXTSLOG, 1)),
        ("inprogress"@, Render::Dec(sbo::INPROGRESS, 1)),
        ("imax_pct"@, Render::Dec(sbo::IMAX_PCT, 1)),
        ("icount"@, Render::Dec(sbo::ICOUNT, 8)),
        ("ifree"@, Render::Dec(sbo::IFREE, 8)),
        ("fdblocks"@, Render::Dec(sbo::FDBLOCKS, 8)),
        ("frextents"@, Render::Dec(sbo::FREXTENTS, 8)),
        ("uquotino"@, Render::Dec(sbo::UQUOTINO, 8)),
        ("gquotino"@, Render::Dec(sbo::GQUOTINO, 8)),
        ("qflags"@, Render::Dec(sbo::QFLAGS, 2)),
        ("flags"@, Render::Dec(sbo::FLAGS, 1)),
        ("shared_vn"@, Render::Dec(sbo::SHARED_VN, 1)),
        ("inoalignmt"@, Render::Dec(sbo::INOALIGNMT, 4)),
        ("unit"@, Render::Dec(sbo::UNIT, 4)),
        ("width"@, Render::Dec(sbo::WIDTH, 4)),
        ("dirblklog"@, Render::Dec(sbo::DIRBLKLOG, 1)),
        ("logsectlog"@, Render::Dec(sbo::LOGSECTLOG, 1)),
        ("logsectsize"@, Render::Dec(sbo::LOGSECTSIZE, 2)),
        ("logsunit"@, Render::Dec(sbo::LOGSUNIT, 4)),
        ("features2"@, Render::Hex(sbo::FEATURES2, 4)),
        ("bad_features2"@, Render::Hex(sbo::BAD_FEATURES2, 4)),
        ("features_compat"@, Render::Hex(sbo::FEATURES_COMPAT, 4)),
        ("features_ro_compat"@, Render::Hex(sbo::FEATURES_RO_COMPAT, 4)),
        ("features_incompat"@, Render::Hex(sbo::FEATURES_INCOMPAT, 4)),
        ("features_log_incompat"@, Render::Hex(sbo::FEATURES_LOG_INCOMPAT, 4)),
        ("spino_align"@, Render::Dec(sbo::SPINO_ALIGN, 4)),
        ("pquotino"@, Render::Dec(sbo::PQUOTINO, 8)),
        ("lsn"@, Render::Dec(sbo::LSN, 8)),
        ("meta_uuid"@, Render::Trim(sbo::META_UUID, (sbo::META_UUID + 16) as usize)),
        ("tail"@, Render::Trim(sbo::END, len)),
        ("crc"@, Render::Crc(sbo::CRC)),
        ("crc_ok"@, Render::CrcOk(sbo::CRC)),
    ]
}

/// The fields of a superblock, as rows.
#[verifier::spinoff_prover]
#[verifier::rlimit(40)]
pub fn sb_table(len: usize) -> (t: Vec<Row>)
    ensures
        rows_view(t@) == sb_rows(len),
{
    let mut t: Vec<Row> = Vec::new();
    add_row(&mut t, "magicnum", Render::Dec(sbo::MAGICNUM, 4));
    add_row(&mut t, "blocksize", Render::Dec(sbo::BLOCKSIZE, 4));
    add_row(&mut t, "dblocks", Render::Dec(sbo::DBLOCKS, 8));
    add_row(&mut t, "rblocks", Render::Dec(sbo::RBLOCKS, 8));
    add_row(&mut t, "rextents", Render::Dec(sbo::REXTENTS, 8));
    add_row(&mut t, "uuid", Render::Uuid(sbo::UUID));
    add_row(&mut t, "logstart", Render::Dec(sbo::LOGSTART, 8));
    add_row(&mut t, "rootino", Render::Dec(sbo::ROOTINO, 8));
    add_row(&mut t, "rbmino", Render::Dec(sbo::RBMINO, 8));
    add_row(&mut t, "rsumino", Render::Dec(sbo::RSUMINO, 8));
    add_row(&mut t, "rextsize", Render::Dec(sbo::REXTSIZE, 4));
    add_row(&mut t, "agblocks", Render::Dec(sbo::AGBLOCKS, 4));
    add_row(&mut t, "agcount", Render::Dec(sbo::AGCOUNT, 4));
    add_row(&mut t, "rbmblocks", Render::Dec(sbo::RBMBLOCKS, 4));
    add_row(&mut t, "logblocks", Render::Dec(sbo::LOGBLOCKS, 4));
    add_row(&mut t, "versionnum", Render::Hex(sbo::VERSIONNUM, 2));
    add_row(&mut t, "sectsize", Render::Dec(sbo::SECTSIZE, 2));
    add_row(&mut t, "inodesize", Render::Dec(sbo::INODESIZE, 2));
    add_row(&mut t, "inopblock", Render::Dec(sbo::INOPBLOCK, 2));
    add_row(&mut t, "fname", Render::Trim(sbo::FNAME, sbo::FNAME + 12));
    add_row(&mut t, "blocklog", Render::Dec(sbo::BLOCKLOG, 1));
    add_row(&mut t, "sectlog", Render::Dec(sbo::SECTLOG, 1));
    add_row(&mut t, "inodelog", Render::Dec(sbo::INODELOG, 1));
    add_row(&mut t, "inopblog", Render::Dec(sbo::INOPBLOG, 1));
    add_row(&mut t, "agblklog", Render::Dec(sbo::AGBLKLOG, 1));
    add_row(&mut t, "rextslog", Render::Dec(sbo::REXTSLOG, 1));
    add_row(&mut t, "inprogress", Render::Dec(sbo::INPROGRESS, 1));
    add_row(&mut t, "imax_pct", Render::Dec(sbo::IMAX_PCT, 1));
    add_row(&mut t, "icount", Render::Dec(sbo::ICOUNT, 8));
    add_row(&mut t, "ifree", Render::Dec(sbo::IFREE, 8));
    add_row(&mut t, "fdblocks", Render::Dec(sbo::FDBLOCKS, 8));
    add_row(&mut t, "frextents", Render::Dec(sbo::FREXTENTS, 8));
    add_row(&mut t, "uquotino", Render::Dec(sbo::UQUOTINO, 8));
    add_row(&mut t, "gquotino", Render::Dec(sbo::GQUOTINO, 8));
    add_row(&mut t, "qflags", Render::Dec(sbo::QFLAGS, 2));
    add_row(&mut t, "flags", Render::Dec(sbo::FLAGS, 1));
    add_row(&mut t, "shared_vn", Render::Dec(sbo::SHARED_VN, 1));
    add_row(&mut t, "inoalignmt", Render::Dec(sbo::INOALIGNMT, 4));
    add_row(&mut t, "unit", Render::Dec(sbo::UNIT, 4));
    add_row(&mut t, "width", Render::Dec(sbo::WIDTH, 4));
    add_row(&mut t, "dirblklog", Render::Dec(sbo::DIRBLKLOG, 1));
    add_row(&mut t, "logsectlog", Render::Dec(sbo::LOGSECTLOG, 1));
    add_row(&mut t, "logsectsize", Render::Dec(sbo::LOGSECTSIZE, 2));
    add_row(&mut t, "logsunit", Render::Dec(sbo::LOGSUNIT, 4));
    add_row(&mut t, "features2", Render::Hex(sbo::FEATURES2, 4));
    add_row(&mut t, "bad_features2", Render::Hex(sbo::BAD_FEATURES2, 4));
    add_row(&mut t, "features_compat", Render::Hex(sbo::FEATURES_COMPAT, 4));
    add_row(&mut t, "features_ro_compat", Render::Hex(sbo::FEATURES_RO_COMPAT, 4));
    add_row(&mut t, "features_incompat", Render::Hex(sbo::FEATURES_INCOMPAT, 4));
    add_row(&mut t, "features_log_incompat", Render::Hex(sbo::FEATURES_LOG_INCOMPAT, 4));
    add_row(&mut t, "spino_align", Render::Dec(sbo::SPINO_ALIGN, 4));
    add_row(&mut t, "pquotino", Render::Dec(sbo::PQUOTINO, 8));
    add_row(&mut t, "lsn", Render::Dec(sbo::LSN, 8));
    add_row(&mut t, "meta_uuid", Render::Trim(sbo::META_UUID, sbo::META_UUID + 16));
    add_row(&mut t, "tail", Render::Trim(sbo::END, len));
    add_row(&mut t, "crc", Render::Crc(sbo::CRC));
    add_row(&mut t, "crc_ok", Render::CrcOk(sbo::CRC));
    assert(rows_view(t@) =~= sb_rows(len));
    t
}

/// Every field of a superblock lies within it.
pub proof fn lemma_sb_fits(len: usize)
    requires
        sbo::END <= len,
    ensures
        all_fit(len as nat, sb_rows(len)),
{
}

/// The fields of an AGF of `len` bytes.
pub open spec fn agf_rows(len: usize) -> Seq<RowView> {
    seq![
        ("magicnum"@, Render::Dec(agf::MAGICNUM, 4)),
        ("versionnum"@, Render::Dec(agf::VERSIONNUM, 4)),
        ("seqno"@, Render::Dec(agf::SEQNO, 4)),
        ("length"@, Render::Dec(agf::LENGTH, 4)),
        ("bnoroot"@, Render::Dec(agf::BNO_ROOT, 4)),
        ("cntroot"@, Render::Dec(agf::CNT_ROOT, 4)),
        ("rmaproot"@, Render::Dec(agf::RMAP_ROOT, 4)),
        ("bnolevel"@, Render::Dec(agf::BNO_LEVEL, 4)),
        ("cntlevel"@, Render::Dec(agf::CNT_LEVEL, 4)),
        ("rmaplevel"@, Render::Dec(agf::RMAP_LEVEL, 4)),
        ("flfirst"@, Render::Dec(agf::FLFIRST, 4)),
        ("fllast"@, Render::Dec(agf::FLLAST, 4)),
        ("flcount"@, Render::Dec(agf::FLCOUNT, 4)),
        ("freeblks"@, Render::Dec(agf::FREEBLKS, 4)),
        ("longest"@, Render::Dec(agf::LONGEST, 4)),
        ("btreeblks"@, Render::Dec(agf::BTREEBLKS, 4)),
        ("rmapblocks"@, Render::Dec(agf::RMAP_BLOCKS, 4)),
        ("refcntblocks"@, Render::Dec(agf::REFCOUNT_BLOCKS, 4)),
        ("refcntroot"@, Render::Dec(agf::REFCOUNT_ROOT, 4)),
        ("refcntlevel"@, Render::Dec(agf::REFCOUNT_LEVEL, 4)),
        ("uuid"@, Render::Uuid(agf::UUID)),
        ("spare"@, Render::Trim((agf::REFCOUNT_LEVEL + 4) as usize, agf::LSN)),
        ("lsn"@, Render::Dec(agf::LSN, 8)),
        ("tail"@, Render::Trim((agf::CRC + 4) as usize, len)),
        ("crc"@, Render::Crc(agf::CRC)),
        ("crc_ok"@, Render::CrcOk(agf::CRC)),
    ]
}

/// The fields of an AGF, as rows.
#[verifier::spinoff_prover]
#[verifier::rlimit(40)]
pub fn agf_table(len: usize) -> (t: Vec<Row>)
    ensures
        rows_view(t@) == agf_rows(len),
{
    let mut t: Vec<Row> = Vec::new();
    add_row(&mut t, "magicnum", Render::Dec(agf::MAGICNUM, 4));
    add_row(&mut t, "versionnum", Render::Dec(agf::VERSIONNUM, 4));
    add_row(&mut t, "seqno", Render::Dec(agf::SEQNO, 4));
    add_row(&mut t, "length", Render::Dec(agf::LENGTH, 4));
    add_row(&mut t, "bnoroot", Render::Dec(agf::BNO_ROOT, 4));
    add_row(&mut t, "cntroot", Render::Dec(agf::CNT_ROOT, 4));
    add_row(&mut t, "rmaproot", Render::Dec(agf::RMAP_ROOT, 4));
    add_row(&mut t, "bnolevel", Render::Dec(agf::BNO_LEVEL, 4));
    add_row(&mut t, "cntlevel", Render::Dec(agf::CNT_LEVEL, 4));
    add_row(&mut t, "rmaplevel", Render::Dec(agf::RMAP_LEVEL, 4));
    add_row(&mut t, "flfirst", Render::Dec(agf::FLFIRST, 4));
    add_row(&mut t, "fllast", Render::Dec(agf::FLLAST, 4));
    add_row(&mut t, "flcount", Render::Dec(agf::FLCOUNT, 4));
    add_row(&mut t, "freeblks", Render::Dec(agf::FREEBLKS, 4));
    add_row(&mut t, "longest", Render::Dec(agf::LONGEST, 4));
    add_row(&mut t, "btreeblks", Render::Dec(agf::BTREEBLKS, 4));
    add_row(&mut t, "rmapblocks", Render::Dec(agf::RMAP_BLOCKS, 4));
    add_row(&mut t, "refcntblocks", Render::Dec(agf::REFCOUNT_BLOCKS, 4));
    add_row(&mut t, "refcntroot", Render::Dec(agf::REFCOUNT_ROOT, 4));
    add_row(&mut t, "refcntlevel", Render::Dec(agf::REFCOUNT_LEVEL, 4));
    add_row(&mut t, "uuid", Render::Uuid(agf::UUID));
    add_row(&mut t, "spare", Render::Trim(agf::REFCOUNT_LEVEL + 4, agf::LSN));
    add_row(&mut t, "lsn", Render::Dec(agf::LSN, 8));
    add_row(&mut t, "tail", Render::Trim(agf::CRC + 4, len));
    add_row(&mut t, "crc", Render::Crc(agf::CRC));
    add_row(&mut t, "crc_ok", Render::CrcOk(agf::CRC));
    assert(rows_view(t@) =~= agf_rows(len));
    t
}

/// Every field of an AGF lies within it.
pub proof fn lemma_agf_fits(len: usize)
    requires
        agf::END <= len,
    ensures
        all_fit(len as nat, agf_rows(len)),
{
}

/// The fields of an AGI of `len` bytes.
pub open spec fn agi_rows(len: usize) -> Seq<RowView> {
    seq![
        ("magicnum"@, Render::Dec(agi::MAGICNUM, 4)),
        ("versionnum"@, Render::Dec(agi::VERSIONNUM, 4)),
        ("seqno"@, Render::Dec(agi::SEQNO, 4)),
        ("length"@, Render::Dec(agi::LENGTH, 4)),
        ("count"@, Render::Dec(agi::COUNT, 4)),
        ("root"@, Render::Dec(agi::ROOT, 4)),
        ("level"@, Render::Dec(agi::LEVEL, 4)),
        ("freecount"@, Render::Dec(agi::FREECOUNT, 4)),
        ("newino"@, Render::Dec(agi::NEWINO, 4)),
        ("dirino"@, Render::Dec(agi::DIRINO, 4)),
        ("free_root"@, Render::Dec(agi::FREE_ROOT, 4)),
        ("free_level"@, Render::Dec(agi::FREE_LEVEL, 4)),
        ("iblocks"@, Render::Dec(agi::IBLOCKS, 4)),
        ("fblocks"@, Render::Dec(agi::FBLOCKS, 4)),
        ("unlinked"@, Render::Unlinked(agi::UNLINKED)),
        ("uuid"@, Render::Uuid(agi::UUID)),
        ("lsn"@, Render::Dec(agi::LSN, 8)),
        ("pad"@, Render::Dec((agi::CRC + 4) as usize, 4)),
        ("tail"@, Render::Trim(agi::END, len)),
        ("crc"@, Render::Crc(agi::CRC)),
        ("crc_ok"@, Render::CrcOk(agi::CRC)),
    ]
}

/// The fields of an AGI, as rows.
#[verifier::spinoff_prover]
#[verifier::rlimit(40)]
pub fn agi_table(len: usize) -> (t: Vec<Row>)
    ensures
        rows_view(t@) == agi_rows(len),
{
    let mut t: Vec<Row> = Vec::new();
    add_row(&mut t, "magicnum", Render::Dec(agi::MAGICNUM, 4));
    add_row(&mut t, "versionnum", Render::Dec(agi::VERSIONNUM, 4));
    add_row(&mut t, "seqno", Render::Dec(agi::SEQNO, 4));
    add_row(&mut t, "length", Render::Dec(agi::LENGTH, 4));
    add_row(&mut t, "count", Render::Dec(agi::COUNT, 4));
    add_row(&mut t, "root", Render::Dec(agi::ROOT, 4));
    add_row(&mut t, "level", Render::Dec(agi::LEVEL, 4));
    add_row(&mut t, "freecount", Render::Dec(agi::FREECOUNT, 4));
    add_row(&mut t, "newino", Render::Dec(agi::NEWINO, 4));
    add_row(&mut t, "dirino", Render::Dec(agi::DIRINO, 4));
    add_row(&mut t, "free_root", Render::Dec(agi::FREE_ROOT, 4));
    add_row(&mut t, "free_level", Render::Dec(agi::FREE_LEVEL, 4));
    add_row(&mut t, "iblocks", Render::Dec(agi::IBLOCKS, 4));
    add_row(&mut t, "fblocks", Render::Dec(agi::FBLOCKS, 4));
    add_row(&mut t, "unlinked", Render::Unlinked(agi::UNLINKED));
    add_row(&mut t, "uuid", Render::Uuid(agi::UUID));
    add_row(&mut t, "lsn", Render::Dec(agi::LSN, 8));
    add_row(&mut t, "pad", Render::Dec(agi::CRC + 4, 4));
    add_row(&mut t, "tail", Render::Trim(agi::END, len));
    add_row(&mut t, "crc", Render::Crc(agi::CRC));
    add_row(&mut t, "crc_ok", Render::CrcOk(agi::CRC));
    assert(rows_view(t@) =~= agi_rows(len));
    t
}

/// Every field of an AGI lies within it.
pub proof fn lemma_agi_fits(len: usize)
    requires
        agi::END <= len,
    ensures
        all_fit(len as nat, agi_rows(len)),
{
}

/// The fields of an AGFL of `len` bytes.
pub open spec fn agfl_rows(len: usize) -> Seq<RowView> {
    seq![
        ("magicnum"@, Render::Dec(agfl::MAGICNUM, 4)),
        ("seqno"@, Render::Dec(agfl::SEQNO, 4)),
        ("uuid"@, Render::Uuid(agfl::UUID)),
        ("lsn"@, Render::Dec(agfl::LSN, 8)),
        ("bno"@, Render::Agfl(agfl::BNO)),
        ("crc"@, Render::Crc(agfl::CRC)),
        ("crc_ok"@, Render::CrcOk(agfl::CRC)),
    ]
}

/// The fields of an AGFL, as rows.
#[verifier::spinoff_prover]
#[verifier::rlimit(40)]
pub fn agfl_table(len: usize) -> (t: Vec<Row>)
    ensures
        rows_view(t@) == agfl_rows(len),
{
    let mut t: Vec<Row> = Vec::new();
    add_row(&mut t, "magicnum", Render::Dec(agfl::MAGICNUM, 4));
    add_row(&mut t, "seqno", Render::Dec(agfl::SEQNO, 4));
    add_row(&mut t, "uuid", Render::Uuid(agfl::UUID));
    add_row(&mut t, "lsn", Render::Dec(agfl::LSN, 8));
    add_row(&mut t, "bno", Render::Agfl(agfl::BNO));
    add_row(&mut t, "crc", Render::Crc(agfl::CRC));
    add_row(&mut t, "crc_ok", Render::CrcOk(agfl::CRC));
    assert(rows_view(t@) =~= agfl_rows(len));
    t
}

/// Every field of an AGFL lies within it.
pub proof fn lemma_agfl_fits(len: usize)
    requires
        agfl::BNO <= len,
    ensures
        all_fit(len as nat, agfl_rows(len)),
{
}

/// The fields of an inode of `len` bytes.
pub open spec fn inode_rows(len: usize) -> Seq<RowView> {
    seq![
        ("magic"@, Render::Hex(ino::MAGIC, 2)),
        ("mode"@, Render::Oct(ino::MODE)),
        ("version"@, Render::Dec(ino::VERSION, 1)),
        ("format"@, Render::Dec(ino::FORMAT, 1)),
        ("metatype"@, Render::Dec(ino::METATYPE, 2)),
        ("uid"@, Render::Dec(ino::UID, 4)),
        ("gid"@, Render::Dec(ino::GID, 4)),
        ("nlink"@, Render::Dec(ino::NLINK, 4)),
        ("projid"@, Render::Projid),
        ("big_nextents"@, Render::Dec(ino::BIG_NEXTENTS, 8)),
        ("atime"@, Render::Time(ino::ATIME)),
        ("mtime"@, Render::Time(ino::MTIME)),
        ("ctime"@, Render::Time(ino::CTIME)),
        ("crtime"@, Render::Time(ino::CRTIME)),
        ("size"@, Render::Dec(ino::SIZE, 8)),
        ("nblocks"@, Render::Dec(ino::NBLOCKS, 8)),
        ("extsize"@, Render::Dec(ino::EXTSIZE, 4)),
        ("nextents"@, Render::Dec(ino::NEXTENTS, 4)),
        ("anextents"@, Render::Dec(ino::ANEXTENTS, 2)),
        ("forkoff"@, Render::Dec(ino::FORKOFF, 1)),
        ("aformat"@, Render::Dec(ino::AFORMAT, 1)),
        ("dmevmask"@, Render::Dec(ino::DMEVMASK, 4)),
        ("dmstate"@, Render::Dec(ino::DMSTATE, 2)),
        ("flags"@, Render::Hex(ino::FLAGS, 2)),
        ("gen"@, Render::Gen(ino::GEN)),
        ("next_unlinked"@, Render::Dec(ino::NEXT_UNLINKED, 4)),
        ("changecount"@, Render::Dec(ino::CHANGECOUNT, 8)),
        ("lsn"@, Render::Dec(ino::LSN, 8)),
        ("flags2"@, Render::Hex(ino::FLAGS2, 8)),
        ("cowextsize"@, Render::Dec(ino::COWEXTSIZE, 4)),
        ("pad2"@, Render::Trim((ino::COWEXTSIZE + 4) as usize, ino::CRTIME)),
        ("ino"@, Render::Dec(ino::INO, 8)),
        ("uuid"@, Render::Uuid(ino::UUID)),
        ("literal"@, Render::Trim(CORE_SIZE, len)),
        ("crc"@, Render::Crc(ino::CRC)),
        ("crc_ok"@, Render::CrcOk(ino::CRC)),
    ]
}

/// The fields of an inode, as rows.
#[verifier::spinoff_prover]
#[verifier::rlimit(40)]
pub fn inode_table(len: usize) -> (t: Vec<Row>)
    ensures
        rows_view(t@) == inode_rows(len),
{
    let mut t: Vec<Row> = Vec::new();
    add_row(&mut t, "magic", Render::Hex(ino::MAGIC, 2));
    add_row(&mut t, "mode", Render::Oct(ino::MODE));
    add_row(&mut t, "version", Render::Dec(ino::VERSION, 1));
    add_row(&mut t, "format", Render::Dec(ino::FORMAT, 1));
    add_row(&mut t, "metatype", Render::Dec(ino::METATYPE, 2));
    add_row(&mut t, "uid", Render::Dec(ino::UID, 4));
    add_row(&mut t, "gid", Render::Dec(ino::GID, 4));
    add_row(&mut t, "nlink", Render::Dec(ino::NLINK, 4));
    add_row(&mut t, "projid", Render::Projid);
    add_row(&mut t, "big_nextents", Render::Dec(ino::BIG_NEXTENTS, 8));
    add_row(&mut t, "atime", Render::Time(ino::ATIME));
    add_row(&mut t, "mtime", Render::Time(ino::MTIME));
    add_row(&mut t, "ctime", Render::Time(ino::CTIME));
    add_row(&mut t, "crtime", Render::Time(ino::CRTIME));
    add_row(&mut t, "size", Render::Dec(ino::SIZE, 8));
    add_row(&mut t, "nblocks", Render::Dec(ino::NBLOCKS, 8));
    add_row(&mut t, "extsize", Render::Dec(ino::EXTSIZE, 4));
    add_row(&mut t, "nextents", Render::Dec(ino::NEXTENTS, 4));
    add_row(&mut t, "anextents", Render::Dec(ino::ANEXTENTS, 2));
    add_row(&mut t, "forkoff", Render::Dec(ino::FORKOFF, 1));
    add_row(&mut t, "aformat", Render::Dec(ino::AFORMAT, 1));
    add_row(&mut t, "dmevmask", Render::Dec(ino::DMEVMASK, 4));
    add_row(&mut t, "dmstate", Render::Dec(ino::DMSTATE, 2));
    add_row(&mut t, "flags", Render::Hex(ino::FLAGS, 2));
    add_row(&mut t, "gen", Render::Gen(ino::GEN));
    add_row(&mut t, "next_unlinked", Render::Dec(ino::NEXT_UNLINKED, 4));
    add_row(&mut t, "changecount", Render::Dec(ino::CHANGECOUNT, 8));
    add_row(&mut t, "lsn", Render::Dec(ino::LSN, 8));
    add_row(&mut t, "flags2", Render::Hex(ino::FLAGS2, 8));
    add_row(&mut t, "cowextsize", Render::Dec(ino::COWEXTSIZE, 4));
    add_row(&mut t, "pad2", Render::Trim(ino::COWEXTSIZE + 4, ino::CRTIME));
    add_row(&mut t, "ino", Render::Dec(ino::INO, 8));
    add_row(&mut t, "uuid", Render::Uuid(ino::UUID));
    add_row(&mut t, "literal", Render::Trim(CORE_SIZE, len));
    add_row(&mut t, "crc", Render::Crc(ino::CRC));
    add_row(&mut t, "crc_ok", Render::CrcOk(ino::CRC));
    assert(rows_view(t@) =~= inode_rows(len));
    t
}

/// Every field of an inode lies within it.
pub proof fn lemma_inode_fits(len: usize)
    requires
        CORE_SIZE <= len,
    ensures
        all_fit(len as nat, inode_rows(len)),
{
}

/// The fields of a btree block's header.
pub open spec fn tree_rows() -> Seq<RowView> {
    seq![
        ("level"@, Render::Dec(bto::LEVEL, 2)),
        ("numrecs"@, Render::Dec(bto::NUMRECS, 2)),
        ("leftsib"@, Render::Dec(bto::LEFTSIB, 4)),
        ("rightsib"@, Render::Dec(bto::RIGHTSIB, 4)),
        ("blkno"@, Render::Dec(bto::BLKNO, 8)),
        ("lsn"@, Render::Dec(bto::LSN, 8)),
        ("uuid"@, Render::Uuid(bto::UUID)),
        ("owner"@, Render::Dec(bto::OWNER, 4)),
        ("crc"@, Render::Crc(bto::CRC)),
        ("crc_ok"@, Render::CrcOk(bto::CRC)),
    ]
}

/// The fields of a btree block's header, as rows.
#[verifier::spinoff_prover]
#[verifier::rlimit(40)]
pub fn tree_table() -> (t: Vec<Row>)
    ensures
        rows_view(t@) == tree_rows(),
{
    let mut t: Vec<Row> = Vec::new();
    add_row(&mut t, "level", Render::Dec(bto::LEVEL, 2));
    add_row(&mut t, "numrecs", Render::Dec(bto::NUMRECS, 2));
    add_row(&mut t, "leftsib", Render::Dec(bto::LEFTSIB, 4));
    add_row(&mut t, "rightsib", Render::Dec(bto::RIGHTSIB, 4));
    add_row(&mut t, "blkno", Render::Dec(bto::BLKNO, 8));
    add_row(&mut t, "lsn", Render::Dec(bto::LSN, 8));
    add_row(&mut t, "uuid", Render::Uuid(bto::UUID));
    add_row(&mut t, "owner", Render::Dec(bto::OWNER, 4));
    add_row(&mut t, "crc", Render::Crc(bto::CRC));
    add_row(&mut t, "crc_ok", Render::CrcOk(bto::CRC));
    assert(rows_view(t@) =~= tree_rows());
    t
}

/// Every field of a btree block's header lies within it.
pub proof fn lemma_tree_fits(len: usize)
    requires
        bto::RECS <= len,
    ensures
        all_fit(len as nat, tree_rows()),
{
}

/// The fields of a log record header.
pub open spec fn log_rows() -> Seq<RowView> {
    seq![
        ("magicno"@, Render::Hex(lo::MAGICNO, 4)),
        ("cycle"@, Render::Hex(lo::CYCLE, 4)),
        ("version"@, Render::Hex(lo::VERSION, 4)),
        ("len"@, Render::Hex(lo::LEN, 4)),
        ("crc"@, Render::Hex(lo::CRC, 4)),
        ("prev_block"@, Render::Hex(lo::PREV_BLOCK, 4)),
        ("num_logops"@, Render::Hex(lo::NUM_LOGOPS, 4)),
        ("cycle_data0"@, Render::Hex(lo::CYCLE_DATA, 4)),
        ("fmt"@, Render::Hex(lo::FMT, 4)),
        ("size"@, Render::Hex(lo::SIZE, 4)),
        ("lsn"@, Render::Hex(lo::LSN, 8)),
        ("tail_lsn"@, Render::Hex(lo::TAIL_LSN, 8)),
        ("uuid"@, Render::Uuid(lo::FS_UUID)),
        ("rest"@, Render::Trim((lo::SIZE + 4) as usize, 512)),
    ]
}

/// The fields of a log record header, as rows.
#[verifier::spinoff_prover]
#[verifier::rlimit(40)]
pub fn log_table() -> (t: Vec<Row>)
    ensures
        rows_view(t@) == log_rows(),
{
    let mut t: Vec<Row> = Vec::new();
    add_row(&mut t, "magicno", Render::Hex(lo::MAGICNO, 4));
    add_row(&mut t, "cycle", Render::Hex(lo::CYCLE, 4));
    add_row(&mut t, "version", Render::Hex(lo::VERSION, 4));
    add_row(&mut t, "len", Render::Hex(lo::LEN, 4));
    add_row(&mut t, "crc", Render::Hex(lo::CRC, 4));
    add_row(&mut t, "prev_block", Render::Hex(lo::PREV_BLOCK, 4));
    add_row(&mut t, "num_logops", Render::Hex(lo::NUM_LOGOPS, 4));
    add_row(&mut t, "cycle_data0", Render::Hex(lo::CYCLE_DATA, 4));
    add_row(&mut t, "fmt", Render::Hex(lo::FMT, 4));
    add_row(&mut t, "size", Render::Hex(lo::SIZE, 4));
    add_row(&mut t, "lsn", Render::Hex(lo::LSN, 8));
    add_row(&mut t, "tail_lsn", Render::Hex(lo::TAIL_LSN, 8));
    add_row(&mut t, "uuid", Render::Uuid(lo::FS_UUID));
    add_row(&mut t, "rest", Render::Trim(lo::SIZE + 4, 512));
    assert(rows_view(t@) =~= log_rows());
    t
}

/// Every field of a log record header lies within it.
pub proof fn lemma_log_fits(len: usize)
    requires
        512 <= len,
    ensures
        all_fit(len as nat, log_rows()),
{
}


/// Add the fields of the superblock `b` under the prefix `p`.
pub fn dump_sb(d: &mut Dump, p: &[char], b: &[u8])
    requires
        sbo::END <= b@.len() <= usize::MAX,
    ensures
        final(d)@ == old(d)@ + rows_fields(p@, b@, sb_rows(b@.len() as usize)),
{
    proof {
        lemma_sb_fits(b.len());
    }
    push_rows(d, p, b, &sb_table(b.len()));
}

/// Add the fields of the AGF `b` under the prefix `p`.
pub fn dump_agf(d: &mut Dump, p: &[char], b: &[u8])
    requires
        agf::END <= b@.len() <= usize::MAX,
    ensures
        final(d)@ == old(d)@ + rows_fields(p@, b@, agf_rows(b@.len() as usize)),
{
    proof {
        lemma_agf_fits(b.len());
    }
    push_rows(d, p, b, &agf_table(b.len()));
}

/// Add the fields of the AGI `b` under the prefix `p`.
pub fn dump_agi(d: &mut Dump, p: &[char], b: &[u8])
    requires
        agi::END <= b@.len() <= usize::MAX,
    ensures
        final(d)@ == old(d)@ + rows_fields(p@, b@, agi_rows(b@.len() as usize)),
{
    proof {
        lemma_agi_fits(b.len());
    }
    push_rows(d, p, b, &agi_table(b.len()));
}

/// Add the fields of the AGFL `b` under the prefix `p`.
pub fn dump_agfl(d: &mut Dump, p: &[char], b: &[u8])
    requires
        agfl::BNO <= b@.len() <= usize::MAX,
    ensures
        final(d)@ == old(d)@ + rows_fields(p@, b@, agfl_rows(b@.len() as usize)),
{
    proof {
        lemma_agfl_fits(b.len());
    }
    push_rows(d, p, b, &agfl_table(b.len()));
}

} // verus!
