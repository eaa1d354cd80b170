//! Reading a whole filesystem's metadata: every superblock, AGF, AGI and
//! AGFL, every block of every per-AG btree, every inode of every allocated
//! chunk, and the log.
use vstd::prelude::*;
use crate::bytes::{be16, be32, copy_range, spec_be16, spec_be32};
use crate::device::{has_nonzero, BlockDevice};
use crate::error::{message2, Error};
use crate::inspect::{geo_fields, geo_ok, has_sb_magic, is_v5, readable, spec_ag_len, spec_byte, spec_log_at, Class, Dump, FieldView, Geo, GEO_BYTES};
use crate::inspect::render::{key, key_chars, push_rows, rows_fields, rows_view, Render, Row, add_row};
use crate::inspect::tables::{agf_rows, agfl_rows, agi_rows, dump_agf, dump_agfl, dump_agi, dump_sb, inode_rows, inode_table, lemma_inode_fits, lemma_log_fits, log_rows, log_table, sb_rows};
use crate::inspect::walk::{dump_tree, indexed, Fail, indexed_chars, lemma_block_offsets, lemma_walk_recs, read, recs_view, spec_read, tree_prefix, walk, walkable, Tree};
use crate::structs::ag::{agf, agfl, agi, AGFL_MAGIC, AGF_MAGIC, AGI_MAGIC};
use crate::structs::log::{record_bbs, spec_clear_sunit};
use crate::structs::sb::version::{IN_SPINODES, RO_FINOBT, RO_REFLINK, RO_RMAPBT};
use crate::text::{chars_of, radix_chars, spec_dec, string_of};
use vstd::arithmetic::power2::pow2;

verus! {

/// Both parts, joined, where both were read.
pub open spec fn then(a: Fields, b: Fields) -> Fields {
    match a {
        Err(e) => Err(e),
        Ok(x) => match b {
            Err(e) => Err(e),
            Ok(y) => Ok(x + y),
        },
    }
}

/// The fields read, or why reading stopped.
pub type Fields = Result<Seq<FieldView>, Fail>;

/// Whether inode `i` of an inode btree record is a hole of a sparse chunk.
pub open spec fn is_hole(g: Geo, rec: Seq<u8>, i: nat) -> bool {
    let holemask: u16 = if g.incompat & IN_SPINODES != 0 {
        spec_be16(rec, 4)
    } else {
        0
    };
    holemask & (1u16 << ((i / 4) as u16)) != 0
}

/// The AG-relative number of inode `i` of an inode btree record.
pub open spec fn rec_agino(rec: Seq<u8>, i: nat) -> u64 {
    (spec_be32(rec, 0) as u64 + i) as u64
}

/// The fields of inode `i` of the chunk an inode btree record of AG
/// `agno` describes: none for a hole; corrupt where the inode lies outside
/// the AG.
pub open spec fn inode_visit(c: Seq<u8>, g: Geo, agno: u64, rec: Seq<u8>, i: nat) -> Fields {
    if is_hole(g, rec, i) {
        Ok(Seq::empty())
    } else {
        let agino = rec_agino(rec, i);
        let agbno = agino >> (g.inopblog as u64);
        let slot = agino & (((1u64 << (g.inopblog as u64)) - 1) as u64);
        if agbno >= spec_ag_len(g, agno) {
            Err(Fail::Corrupt)
        } else {
            match spec_read(c, spec_byte(g, agno, agbno) as int, g.blocksize as int) {
                None => Err(Fail::Unreadable),
                Some(block) => {
                    let at = slot * g.inodesize;
                    let ino = (agno << ((g.agblklog + g.inopblog) as u64)) | agino;
                    Ok(
                        rows_fields(
                            indexed("inode"@, ino as nat),
                            block.subrange(at as int, at + g.inodesize),
                            inode_rows(g.inodesize as usize),
                        ),
                    )
                },
            }
        }
    }
}

/// The fields of the first `n` inodes of a chunk.
pub open spec fn chunk_visit(c: Seq<u8>, g: Geo, agno: u64, rec: Seq<u8>, n: nat) -> Fields
    decreases n,
{
    if n == 0 {
        Ok(Seq::empty())
    } else {
        then(chunk_visit(c, g, agno, rec, (n - 1) as nat), inode_visit(c, g, agno, rec, (n - 1) as nat))
    }
}

/// The fields of every inode of the first `n` chunks.
pub open spec fn chunks_visit(c: Seq<u8>, g: Geo, agno: u64, recs: Seq<Seq<u8>>, n: nat) -> Fields
    decreases n,
{
    if n == 0 {
        Ok(Seq::empty())
    } else {
        then(chunks_visit(c, g, agno, recs, (n - 1) as nat), chunk_visit(c, g, agno, recs[n - 1], 64))
    }
}

proof fn lemma_chunk_stays_err(c: Seq<u8>, g: Geo, agno: u64, rec: Seq<u8>, n: nat, m: nat)
    requires
        n <= m,
        chunk_visit(c, g, agno, rec, n) is Err,
    ensures
        chunk_visit(c, g, agno, rec, m) == chunk_visit(c, g, agno, rec, n),
    decreases m - n,
{
    if n < m {
        lemma_chunk_stays_err(c, g, agno, rec, n, (m - 1) as nat);
    }
}

proof fn lemma_chunks_stay_err(c: Seq<u8>, g: Geo, agno: u64, recs: Seq<Seq<u8>>, n: nat, m: nat)
    requires
        n <= m,
        chunks_visit(c, g, agno, recs, n) is Err,
    ensures
        chunks_visit(c, g, agno, recs, m) == chunks_visit(c, g, agno, recs, n),
    decreases m - n,
{
    if n < m {
        lemma_chunks_stay_err(c, g, agno, recs, n, (m - 1) as nat);
    }
}

proof fn lemma_slot(agino: u64, k: u64, isz: u64, bs: u64)
    requires
        k < 64,
        isz * pow2(k as nat) <= bs,
    ensures
        (1u64 << k) >= 1,
        (agino & (((1u64 << k) - 1) as u64)) < 1u64 << k,
        (agino & (((1u64 << k) - 1) as u64)) * isz + isz <= bs,
{
    vstd::bits::lemma_u64_pow2_no_overflow(k as nat);
    vstd::bits::lemma_u64_shl_is_mul(1, k);
    let p = 1u64 << k;
    assert(p == pow2(k as nat));
    let slot = agino & ((p - 1) as u64);
    assert(slot < p) by (bit_vector)
        requires
            k < 64,
            p == 1u64 << k,
            slot == agino & ((p - 1) as u64),
    ;
    assert(slot * isz + isz <= bs) by (nonlinear_arith)
        requires
            slot < p,
            isz * p <= bs,
    ;
}

/// Dump inode `i` of the chunk the record `rec` describes.
#[verifier::spinoff_prover]
fn dump_inode<D: BlockDevice>(dev: &D, g: &Geo, d: &mut Dump, agno: u64, rec: &Vec<u8>, i: u64) -> (r: Result<
    (),
    Error,
>)
    requires
        walkable(*g),
        agno < g.agcount,
        rec@.len() >= 6,
        i < 64,
    ensures
        r is Ok ==> match inode_visit(dev.bytes(), *g, agno, rec@, i as nat) {
            Ok(f) => final(d)@ == old(d)@ + f,
            Err(_) => false,
        },
        r is Err ==> !dev.reliable() || inode_visit(dev.bytes(), *g, agno, rec@, i as nat) is Err,
        dev.reliable() && inode_visit(dev.bytes(), *g, agno, rec@, i as nat) == Err::<Seq<FieldView>, Fail>(Fail::Corrupt) ==> (r matches Err(e) && e is Corrupt),
{
    let holemask: u16 = if g.incompat & IN_SPINODES != 0 {
        be16(rec.as_slice(), 4)
    } else {
        0
    };
    if holemask & (1u16 << ((i / 4) as u16)) != 0 {
        assert(d@ =~= old(d)@ + Seq::<FieldView>::empty());
        return Ok(());
    }
    let startino = be32(rec.as_slice(), 0);
    let agino = startino as u64 + i;
    let k = g.inopblog as u64;
    proof {
        lemma_slot(agino, k, g.inodesize, g.blocksize);
    }
    let agbno = agino >> k;
    let slot = agino & ((1u64 << k) - 1);
    let len = g.ag_len(agno);
    if agbno >= len {
        return Err(Error::Corrupt(message2("inode chunk at ", startino as u64, " runs out of AG ", agno, "")));
    }
    proof {
        lemma_block_offsets(*g, agno, agbno);
    }
    let block = read(dev, g.byte(agno, agbno), g.blocksize)?;
    assert(slot <= g.blocksize) by (nonlinear_arith)
        requires
            slot * g.inodesize + g.inodesize <= g.blocksize,
            g.inodesize >= 1,
    ;
    let isz = g.inodesize as usize;
    let at = slot as usize * isz;
    let bytes = copy_range(block.as_slice(), at, at + isz);
    let ino = (agno << ((g.agblklog + g.inopblog) as u64)) | agino;
    let p = indexed_chars(chars_of("inode").as_slice(), ino);
    let rows = inode_table(isz);
    proof {
        lemma_inode_fits(isz);
    }
    push_rows(d, p.as_slice(), bytes.as_slice(), &rows);
    Ok(())
}

/// Dump every inode of the chunk the record `rec` describes, holes
/// excepted.
#[verifier::spinoff_prover]
fn dump_chunk<D: BlockDevice>(dev: &D, g: &Geo, d: &mut Dump, agno: u64, rec: &Vec<u8>) -> (r: Result<(), Error>)
    requires
        walkable(*g),
        agno < g.agcount,
        rec@.len() >= 6,
    ensures
        r is Ok ==> match chunk_visit(dev.bytes(), *g, agno, rec@, 64) {
            Ok(f) => final(d)@ == old(d)@ + f,
            Err(_) => false,
        },
        r is Err ==> !dev.reliable() || chunk_visit(dev.bytes(), *g, agno, rec@, 64) is Err,
        dev.reliable() && chunk_visit(dev.bytes(), *g, agno, rec@, 64) == Err::<Seq<FieldView>, Fail>(Fail::Corrupt) ==> (r matches Err(e) && e is Corrupt),
{
    let ghost d0 = d@;
    let ghost mut acc: Seq<FieldView> = Seq::empty();
    assert(d@ =~= d0 + acc);
    let mut i: u64 = 0;
    while i < 64
        invariant
            i <= 64,
            walkable(*g),
            agno < g.agcount,
            rec@.len() >= 6,
            chunk_visit(dev.bytes(), *g, agno, rec@, i as nat) == Ok::<Seq<FieldView>, Fail>(acc),
            d@ == d0 + acc,
        decreases 64 - i,
    {
        let res = dump_inode(dev, g, d, agno, rec, i);
        if res.is_err() {
            proof {
                if dev.reliable() {
                    lemma_chunk_stays_err(dev.bytes(), *g, agno, rec@, (i + 1) as nat, 64);
                }
            }
            return res;
        }
        proof {
            let f = inode_visit(dev.bytes(), *g, agno, rec@, i as nat)->Ok_0;
            assert(d@ =~= d0 + (acc + f));
            acc = acc + f;
        }
        i += 1;
    }
    Ok(())
}

/// Dump every inode of every chunk the records describe.
#[verifier::spinoff_prover]
fn dump_chunks<D: BlockDevice>(dev: &D, g: &Geo, d: &mut Dump, agno: u64, recs: &Vec<Vec<u8>>) -> (r: Result<
    (),
    Error,
>)
    requires
        walkable(*g),
        agno < g.agcount,
        forall|j: int| 0 <= j < recs@.len() ==> #[trigger] recs@[j]@.len() >= 6,
    ensures
        r is Ok ==> match chunks_visit(dev.bytes(), *g, agno, recs_view(recs@), recs@.len()) {
            Ok(f) => final(d)@ == old(d)@ + f,
            Err(_) => false,
        },
        r is Err ==> !dev.reliable() || chunks_visit(dev.bytes(), *g, agno, recs_view(recs@), recs@.len()) is Err,
        dev.reliable() && chunks_visit(dev.bytes(), *g, agno, recs_view(recs@), recs@.len()) == Err::<Seq<FieldView>, Fail>(Fail::Corrupt) ==> (r matches Err(e) && e is Corrupt),
{
    let ghost d0 = d@;
    let ghost rv = recs_view(recs@);
    let ghost mut acc: Seq<FieldView> = Seq::empty();
    assert(d@ =~= d0 + acc);
    let mut j: usize = 0;
    while j < recs.len()
        invariant
            j <= recs@.len(),
            walkable(*g),
            agno < g.agcount,
            rv == recs_view(recs@),
            forall|j: int| 0 <= j < recs@.len() ==> #[trigger] recs@[j]@.len() >= 6,
            chunks_visit(dev.bytes(), *g, agno, rv, j as nat) == Ok::<Seq<FieldView>, Fail>(acc),
            d@ == d0 + acc,
        decreases recs@.len() - j,
    {
        assert(rv[j as int] == recs@[j as int]@);
        let res = dump_chunk(dev, g, d, agno, &recs[j]);
        if res.is_err() {
            proof {
                if dev.reliable() {
                    lemma_chunks_stay_err(dev.bytes(), *g, agno, rv, (j + 1) as nat, recs@.len());
                }
            }
            return res;
        }
        proof {
            let f = chunk_visit(dev.bytes(), *g, agno, rv[j as int], 64)->Ok_0;
            assert(d@ =~= d0 + (acc + f));
            acc = acc + f;
        }
        j += 1;
    }
    Ok(())
}

/// The fields of AG `agno`'s tree `t` walked from `root`.
#[verifier::opaque]
pub open spec fn tree_fields(c: Seq<u8>, g: Geo, agno: u64, t: Tree, root: u32) -> Fields {
    match walk(c, g, agno, t, tree_prefix(agno, t), seq![root as u64], 0) {
        Err(e) => Err(e),
        Ok(w) => Ok(w.0),
    }
}

/// The fields of a tree the filesystem may lack: none where it does.
pub open spec fn opt_tree(c: Seq<u8>, g: Geo, agno: u64, t: Tree, root: u32, present: bool) -> Fields {
    if present {
        tree_fields(c, g, agno, t, root)
    } else {
        Ok(Seq::empty())
    }
}

/// The fields of AG `agno`'s free-space, reverse-mapping and
/// reference-count btrees, found from its AGF.
pub open spec fn free_trees(c: Seq<u8>, g: Geo, agno: u64, agf_b: Seq<u8>) -> Fields {
    let bno = tree_fields(c, g, agno, Tree::Bno, spec_be32(agf_b, agf::BNO_ROOT as int));
    let cnt = tree_fields(c, g, agno, Tree::Cnt, spec_be32(agf_b, agf::CNT_ROOT as int));
    let rmap = opt_tree(c, g, agno, Tree::Rmap, spec_be32(agf_b, agf::RMAP_ROOT as int), g.ro_compat & RO_RMAPBT != 0);
    let refc = opt_tree(
        c,
        g,
        agno,
        Tree::Refc,
        spec_be32(agf_b, agf::REFCOUNT_ROOT as int),
        g.ro_compat & RO_REFLINK != 0,
    );
    then(then(then(bno, cnt), rmap), refc)
}

/// The fields of AG `agno`'s inode btrees, found from its AGI, and of
/// every inode its inode btree lists.
pub open spec fn inode_trees(c: Seq<u8>, g: Geo, agno: u64, agi_b: Seq<u8>) -> Fields {
    let fino = opt_tree(c, g, agno, Tree::Fino, spec_be32(agi_b, agi::FREE_ROOT as int), g.ro_compat & RO_FINOBT != 0);
    match walk(c, g, agno, Tree::Ino, tree_prefix(agno, Tree::Ino), seq![spec_be32(agi_b, agi::ROOT as int) as u64], 0) {
        Err(e) => Err(e),
        Ok(w) => then(then(Ok(w.0), fino), chunks_visit(c, g, agno, w.1, w.1.len())),
    }
}

/// The fields of AG `agno`'s btrees, found from its AGF and AGI, and of
/// every inode its inode btree lists.
pub open spec fn ag_trees(c: Seq<u8>, g: Geo, agno: u64, agf_b: Seq<u8>, agi_b: Seq<u8>) -> Fields {
    then(free_trees(c, g, agno, agf_b), inode_trees(c, g, agno, agi_b))
}

/// The blocks of an AG's headers: its four sectors, rounded up to whole
/// blocks.
pub open spec fn head_blocks(g: Geo) -> int {
    (4 * g.sectsize + g.blocksize - 1) / g.blocksize as int
}

/// The AGF, AGI and AGFL of an AG's headers all carry their magic.
pub open spec fn magics_ok(head: Seq<u8>, ss: int) -> bool {
    &&& spec_be32(head.subrange(ss, 2 * ss), agf::MAGICNUM as int) == AGF_MAGIC
    &&& spec_be32(head.subrange(2 * ss, 3 * ss), agi::MAGICNUM as int) == AGI_MAGIC
    &&& spec_be32(head.subrange(3 * ss, 4 * ss), agfl::MAGICNUM as int) == AGFL_MAGIC
}

/// The fields of AG `agno`'s headers, read as `head` with sectors of `ss`
/// bytes: its superblock, then either a note of bad magic or its AGF, AGI
/// and AGFL.
pub open spec fn head_fields(head: Seq<u8>, agno: u64, ss: int) -> Seq<FieldView> {
    let p = indexed("ag"@, agno as nat);
    let sbf = rows_fields(key(p, "sb"@), head.subrange(0, ss), sb_rows(ss as usize));
    if !magics_ok(head, ss) {
        sbf.push((key(p, "headers"@), "bad magic"@, Class::Substantive))
    } else {
        sbf + rows_fields(key(p, "agf"@), head.subrange(ss, 2 * ss), agf_rows(ss as usize)) + rows_fields(
            key(p, "agi"@),
            head.subrange(2 * ss, 3 * ss),
            agi_rows(ss as usize),
        ) + rows_fields(key(p, "agfl"@), head.subrange(3 * ss, 4 * ss), agfl_rows(ss as usize))
    }
}

/// The fields of AG `agno`: its headers and, where their magics hold,
/// its btrees and inodes.
#[verifier::opaque]
pub open spec fn ag_visit(c: Seq<u8>, g: Geo, agno: u64) -> Fields {
    match spec_read(c, spec_byte(g, agno, 0) as int, head_blocks(g) * g.blocksize) {
        None => Err(Fail::Unreadable),
        Some(head) => {
            let ss = g.sectsize as int;
            if !magics_ok(head, ss) {
                Ok(head_fields(head, agno, ss))
            } else {
                then(
                    Ok(head_fields(head, agno, ss)),
                    ag_trees(c, g, agno, head.subrange(ss, 2 * ss), head.subrange(2 * ss, 3 * ss)),
                )
            }
        },
    }
}

/// Dump a tree, dropping its leaf records.
fn dump_tree_fields<D: BlockDevice>(dev: &D, g: &Geo, d: &mut Dump, agno: u64, t: Tree, root: u32) -> (r: Result<
    (),
    Error,
>)
    requires
        walkable(*g),
        agno < g.agcount,
    ensures
        r is Ok ==> match tree_fields(dev.bytes(), *g, agno, t, root) {
            Ok(f) => final(d)@ == old(d)@ + f,
            Err(_) => false,
        },
        r is Err ==> !dev.reliable() || tree_fields(dev.bytes(), *g, agno, t, root) is Err,
        dev.reliable() && tree_fields(dev.bytes(), *g, agno, t, root) == Err::<Seq<FieldView>, Fail>(Fail::Corrupt) ==> (r matches Err(e) && e is Corrupt),
{
    proof {
        reveal(tree_fields);
    }
    dump_tree(dev, g, d, agno, t, root as u64)?;
    Ok(())
}

/// Dump a tree the filesystem may lack.
fn dump_opt_tree<D: BlockDevice>(
    dev: &D,
    g: &Geo,
    d: &mut Dump,
    agno: u64,
    t: Tree,
    root: u32,
    present: bool,
) -> (r: Result<(), Error>)
    requires
        walkable(*g),
        agno < g.agcount,
    ensures
        r is Ok ==> match opt_tree(dev.bytes(), *g, agno, t, root, present) {
            Ok(f) => final(d)@ == old(d)@ + f,
            Err(_) => false,
        },
        r is Err ==> !dev.reliable() || opt_tree(dev.bytes(), *g, agno, t, root, present) is Err,
        dev.reliable() && opt_tree(dev.bytes(), *g, agno, t, root, present) == Err::<Seq<FieldView>, Fail>(Fail::Corrupt) ==> (r matches Err(e) && e is Corrupt),
{
    if present {
        dump_tree_fields(dev, g, d, agno, t, root)
    } else {
        assert(d@ =~= old(d)@ + Seq::<FieldView>::empty());
        Ok(())
    }
}

/// Dump AG `agno`'s free-space, reverse-mapping and reference-count
/// btrees.
#[verifier::spinoff_prover]
fn dump_free_trees<D: BlockDevice>(dev: &D, g: &Geo, d: &mut Dump, agno: u64, agf_b: &Vec<u8>) -> (r: Result<
    (),
    Error,
>)
    requires
        walkable(*g),
        agno < g.agcount,
        agf_b@.len() >= agf::END,
    ensures
        r is Ok ==> match free_trees(dev.bytes(), *g, agno, agf_b@) {
            Ok(f) => final(d)@ == old(d)@ + f,
            Err(_) => false,
        },
        r is Err ==> !dev.reliable() || free_trees(dev.bytes(), *g, agno, agf_b@) is Err,
        dev.reliable() && free_trees(dev.bytes(), *g, agno, agf_b@) == Err::<Seq<FieldView>, Fail>(Fail::Corrupt) ==> (r matches Err(e) && e is Corrupt),
{
    let ghost d0 = d@;
    dump_tree_fields(dev, g, d, agno, Tree::Bno, be32(agf_b.as_slice(), agf::BNO_ROOT))?;
    let ghost d1 = d@;
    dump_tree_fields(dev, g, d, agno, Tree::Cnt, be32(agf_b.as_slice(), agf::CNT_ROOT))?;
    let ghost d2 = d@;
    dump_opt_tree(dev, g, d, agno, Tree::Rmap, be32(agf_b.as_slice(), agf::RMAP_ROOT), g.has(RO_RMAPBT))?;
    let ghost d3 = d@;
    dump_opt_tree(dev, g, d, agno, Tree::Refc, be32(agf_b.as_slice(), agf::REFCOUNT_ROOT), g.has(RO_REFLINK))?;
    proof {
        let bno = d1.subrange(d0.len() as int, d1.len() as int);
        let cnt = d2.subrange(d1.len() as int, d2.len() as int);
        let rmap = d3.subrange(d2.len() as int, d3.len() as int);
        let refc = d@.subrange(d3.len() as int, d@.len() as int);
        assert(d1 =~= d0 + bno);
        assert(d2 =~= d1 + cnt);
        assert(d3 =~= d2 + rmap);
        assert(d@ =~= d3 + refc);
        assert(d@ =~= d0 + (((bno + cnt) + rmap) + refc));
    }
    Ok(())
}

/// Dump AG `agno`'s inode btrees and the inodes they list.
#[verifier::spinoff_prover]
fn dump_inode_trees<D: BlockDevice>(dev: &D, g: &Geo, d: &mut Dump, agno: u64, agi_b: &Vec<u8>) -> (r: Result<
    (),
    Error,
>)
    requires
        walkable(*g),
        agno < g.agcount,
        agi_b@.len() >= agi::END,
    ensures
        r is Ok ==> match inode_trees(dev.bytes(), *g, agno, agi_b@) {
            Ok(f) => final(d)@ == old(d)@ + f,
            Err(_) => false,
        },
        r is Err ==> !dev.reliable() || inode_trees(dev.bytes(), *g, agno, agi_b@) is Err,
        dev.reliable() && inode_trees(dev.bytes(), *g, agno, agi_b@) == Err::<Seq<FieldView>, Fail>(Fail::Corrupt) ==> (r matches Err(e) && e is Corrupt),
{
    let ghost c = dev.bytes();
    let ghost d4 = d@;
    let chunks = dump_tree(dev, g, d, agno, Tree::Ino, be32(agi_b.as_slice(), agi::ROOT) as u64)?;
    let ghost d5 = d@;
    let ghost root = seq![spec_be32(agi_b@, agi::ROOT as int) as u64];
    let ghost w = walk(c, *g, agno, Tree::Ino, tree_prefix(agno, Tree::Ino), root, 0)->Ok_0;
    proof {
        lemma_walk_recs(c, *g, agno, Tree::Ino, tree_prefix(agno, Tree::Ino), root, 0);
        assert forall|j: int| 0 <= j < chunks@.len() implies #[trigger] chunks@[j]@.len() >= 6 by {
            assert(recs_view(chunks@)[j] == chunks@[j]@);
        }
    }
    dump_opt_tree(dev, g, d, agno, Tree::Fino, be32(agi_b.as_slice(), agi::FREE_ROOT), g.has(RO_FINOBT))?;
    let ghost d6 = d@;
    dump_chunks(dev, g, d, agno, &chunks)?;
    proof {
        let fino = d6.subrange(d5.len() as int, d6.len() as int);
        let inodes = d@.subrange(d6.len() as int, d@.len() as int);
        assert(d5 =~= d4 + w.0);
        assert(d6 =~= d5 + fino);
        assert(d@ =~= d6 + inodes);
        assert(d@ =~= d4 + ((w.0 + fino) + inodes));
    }
    Ok(())
}

/// Dump AG `agno`'s btrees and the inodes its inode btree lists.
fn dump_ag_trees<D: BlockDevice>(dev: &D, g: &Geo, d: &mut Dump, agno: u64, agf_b: &Vec<u8>, agi_b: &Vec<u8>) -> (r:
    Result<(), Error>)
    requires
        walkable(*g),
        agno < g.agcount,
        agf_b@.len() >= agf::END,
        agi_b@.len() >= agi::END,
    ensures
        r is Ok ==> match ag_trees(dev.bytes(), *g, agno, agf_b@, agi_b@) {
            Ok(f) => final(d)@ == old(d)@ + f,
            Err(_) => false,
        },
        r is Err ==> !dev.reliable() || ag_trees(dev.bytes(), *g, agno, agf_b@, agi_b@) is Err,
        dev.reliable() && ag_trees(dev.bytes(), *g, agno, agf_b@, agi_b@) == Err::<Seq<FieldView>, Fail>(Fail::Corrupt) ==> (r matches Err(e) && e is Corrupt),
{
    let ghost d0 = d@;
    dump_free_trees(dev, g, d, agno, agf_b)?;
    let ghost d1 = d@;
    dump_inode_trees(dev, g, d, agno, agi_b)?;
    proof {
        let a = d1.subrange(d0.len() as int, d1.len() as int);
        let b = d@.subrange(d1.len() as int, d@.len() as int);
        assert(d1 =~= d0 + a);
        assert(d@ =~= d1 + b);
        assert(d@ =~= d0 + (a + b));
    }
    Ok(())
}

proof fn lemma_head_blocks(g: Geo)
    requires
        geo_ok(g),
    ensures
        4 * g.sectsize <= head_blocks(g) * g.blocksize <= 5 * g.blocksize,
{
    let ss = g.sectsize as int;
    let bs = g.blocksize as int;
    let h = head_blocks(g);
    assert(h * bs >= 4 * ss && h * bs <= 5 * bs) by (nonlinear_arith)
        requires
            h == (4 * ss + bs - 1) / bs,
            bs > 0,
            ss <= bs,
            ss > 0,
    ;
}

/// Dump AG `agno`: its headers and, where their magics hold, its btrees
/// and inodes.
#[verifier::spinoff_prover]
fn dump_ag<D: BlockDevice>(dev: &D, g: &Geo, d: &mut Dump, agno: u64) -> (r: Result<(), Error>)
    requires
        walkable(*g),
        agno < g.agcount,
    ensures
        r is Ok ==> match ag_visit(dev.bytes(), *g, agno) {
            Ok(f) => final(d)@ == old(d)@ + f,
            Err(_) => false,
        },
        r is Err ==> !dev.reliable() || ag_visit(dev.bytes(), *g, agno) is Err,
        dev.reliable() && ag_visit(dev.bytes(), *g, agno) == Err::<Seq<FieldView>, Fail>(Fail::Corrupt) ==> (r matches Err(e) && e is Corrupt),
{
    reveal(ag_visit);
    let bs = g.blocksize;
    let ss = g.sectsize;
    proof {
        lemma_head_blocks(*g);
        assert(agno * g.agblocks <= u32::MAX * u32::MAX) by (nonlinear_arith)
            requires
                agno <= u32::MAX,
                g.agblocks <= u32::MAX,
        ;
    }
    let hb = (4 * ss + bs - 1) / bs;
    let head = read(dev, g.byte(agno, 0), hb * bs)?;
    let ghost d0 = d@;
    let ssz = ss as usize;
    let p = indexed_chars(chars_of("ag").as_slice(), agno);
    let sbb = copy_range(head.as_slice(), 0, ssz);
    dump_sb(d, key_chars(p.as_slice(), chars_of("sb").as_slice()).as_slice(), sbb.as_slice());
    let agf_b = copy_range(head.as_slice(), ssz, 2 * ssz);
    let agi_b = copy_range(head.as_slice(), 2 * ssz, 3 * ssz);
    let agfl_b = copy_range(head.as_slice(), 3 * ssz, 4 * ssz);
    if be32(agf_b.as_slice(), agf::MAGICNUM) != AGF_MAGIC || be32(agi_b.as_slice(), agi::MAGICNUM) != AGI_MAGIC
        || be32(agfl_b.as_slice(), agfl::MAGICNUM) != AGFL_MAGIC {
        d.push(
            key_chars(p.as_slice(), chars_of("headers").as_slice()),
            string_of(chars_of("bad magic").as_slice()),
            Class::Substantive,
        );
        assert(d@ =~= d0 + head_fields(head@, agno, ss as int));
        return Ok(());
    }
    dump_agf(d, key_chars(p.as_slice(), chars_of("agf").as_slice()).as_slice(), agf_b.as_slice());
    dump_agi(d, key_chars(p.as_slice(), chars_of("agi").as_slice()).as_slice(), agi_b.as_slice());
    dump_agfl(d, key_chars(p.as_slice(), chars_of("agfl").as_slice()).as_slice(), agfl_b.as_slice());
    let ghost dh = d@;
    assert(dh =~= d0 + head_fields(head@, agno, ss as int));
    dump_ag_trees(dev, g, d, agno, &agf_b, &agi_b)?;
    proof {
        let t = d@.subrange(dh.len() as int, d@.len() as int);
        assert(d@ =~= dh + t);
        assert(d@ =~= d0 + (head_fields(head@, agno, ss as int) + t));
    }
    Ok(())
}

/// The length of the log's first record: the stripe unit the log was
/// cleared with, at least two basic blocks. The reader takes the log
/// sector size for the stripe unit.
pub open spec fn log_rec_len(g: Geo) -> int {
    record_bbs(spec_clear_sunit(1, g.logsectsize as u32)) * 512
}

/// How many of the `k` blocks of `bs` bytes from `start` hold a non-zero
/// byte.
pub open spec fn nonzero_blocks(c: Seq<u8>, start: int, bs: int, k: nat) -> nat
    decreases k,
{
    if k == 0 {
        0
    } else {
        (if has_nonzero(c.subrange(start, start + bs)) {
            1nat
        } else {
            0nat
        }) + nonzero_blocks(c, start + bs, bs, (k - 1) as nat)
    }
}

/// The fields of the log: its first record's header and body, and how
/// many of the blocks after it hold anything.
#[verifier::opaque]
pub open spec fn log_visit(c: Seq<u8>, g: Geo) -> Fields {
    let at = spec_log_at(g);
    let bs = g.blocksize as int;
    match spec_read(c, at as int, bs) {
        None => Err(Fail::Unreadable),
        Some(first) => {
            let rl = if log_rec_len(g) < bs {
                log_rec_len(g)
            } else {
                bs
            };
            let hdr = rows_fields("log.header"@, first, log_rows()) + rows_fields(
                "log"@,
                first,
                seq![("record"@, Render::Trim(512, rl as usize))],
            );
            let nz0: nat = if has_nonzero(first.subrange(rl, bs)) {
                1
            } else {
                0
            };
            let k: nat = if g.logblocks >= 1 {
                (g.logblocks - 1) as nat
            } else {
                0
            };
            if k > 0 && at + g.logblocks * bs > c.len() {
                Err(Fail::Unreadable)
            } else {
                Ok(
                    hdr.push(
                        (
                            "log.nonzero_blocks_after_first_record"@,
                            spec_dec(nz0 + nonzero_blocks(c, at + bs, bs, k)),
                            Class::Substantive,
                        ),
                    ),
                )
            }
        },
    }
}

/// Reading the log only ever stops at a read outside the device.
pub proof fn lemma_log_err(c: Seq<u8>, g: Geo)
    requires
        log_visit(c, g) is Err,
    ensures
        log_visit(c, g) == Err::<Seq<FieldView>, Fail>(Fail::Unreadable),
{
    reveal(log_visit);
}

fn rec_len(sunit: u32) -> (r: u64)
    ensures
        r == record_bbs(sunit) * 512,
{
    let n: u64 = if sunit > 0 {
        (sunit as u64 + 511) / 512
    } else {
        2
    };
    let n: u64 = if n < 2 {
        2
    } else {
        n
    };
    n * 512
}

/// Dump the log.
#[verifier::spinoff_prover]
fn dump_log<D: BlockDevice>(dev: &D, g: &Geo, d: &mut Dump) -> (r: Result<(), Error>)
    requires
        walkable(*g),
    ensures
        r is Ok ==> match log_visit(dev.bytes(), *g) {
            Ok(f) => final(d)@ == old(d)@ + f,
            Err(_) => false,
        },
        r is Err ==> !dev.reliable() || log_visit(dev.bytes(), *g) is Err,
{
    reveal(log_visit);
    let ghost c = dev.bytes();
    let bs = g.blocksize;
    let k = g.agblklog as u64;
    proof {
        vstd::bits::lemma_u64_pow2_no_overflow(k as nat);
        vstd::bits::lemma_u64_shl_is_mul(1, k);
    }
    let log_ag = g.logstart >> k;
    let log_agbno = g.logstart & ((1u64 << k) - 1);
    let at = g.byte(log_ag, log_agbno);
    assert(at == spec_log_at(*g));
    let first = read(dev, at, bs)?;
    let size = dev.size();
    let ghost d0 = d@;
    let sunit = crate::structs::log::clear_sunit(1, g.logsectsize as u32);
    let full = rec_len(sunit);
    let rl = if full < bs {
        full
    } else {
        bs
    };
    proof {
        lemma_log_fits(bs as usize);
    }
    push_rows(d, chars_of("log.header").as_slice(), first.as_slice(), &log_table());
    let mut rows: Vec<Row> = Vec::new();
    add_row(&mut rows, "record", Render::Trim(512, rl as usize));
    assert(rows_view(rows@) =~= seq![("record"@, Render::Trim(512, rl as usize))]);
    push_rows(d, chars_of("log").as_slice(), first.as_slice(), &rows);
    let tail = copy_range(first.as_slice(), rl as usize, bs as usize);
    let mut nz: u64 = if crate::device::any_nonzero(&tail) {
        1
    } else {
        0
    };
    let ghost nz0 = nz;
    let logblocks = g.logblocks;
    let mut remaining: u64 = if logblocks >= 1 {
        logblocks - 1
    } else {
        0
    };
    let ghost k0 = remaining as nat;
    let ghost start = at + bs;
    proof {
        if logblocks >= 1 {
            assert(at + bs + k0 * bs == at + logblocks * bs) by (nonlinear_arith)
                requires
                    k0 == logblocks - 1,
            ;
            assert(logblocks * bs >= bs) by (nonlinear_arith)
                requires
                    logblocks >= 1,
                    bs > 0,
            ;
        }
    }
    let mut pos: u64 = if remaining > 0 {
        at + bs
    } else {
        0
    };
    let ghost mut gpos: int = start;
    while remaining > 0
        invariant
            c == dev.bytes(),
            bs == g.blocksize,
            0 < bs <= 65536,
            at == spec_log_at(*g),
            logblocks == g.logblocks,
            spec_read(c, at as int, bs as int) is Some,
            start == at + bs,
            k0 == (if logblocks >= 1 { logblocks - 1 } else { 0 }),
            logblocks >= 1 ==> at + bs + k0 * bs == at + logblocks * bs,
            remaining > 0 ==> pos == gpos,
            gpos + remaining * bs == start + k0 * bs,
            remaining < k0 ==> gpos <= c.len(),
            c.len() == size,
            nz <= k0 - remaining + 1,
            k0 < u64::MAX,
            remaining <= k0,
            nz0 + nonzero_blocks(c, start, bs as int, k0) == nz + nonzero_blocks(c, gpos, bs as int, remaining as nat),
        decreases remaining,
    {
        proof {
            reveal(log_visit);
        }
        assert(gpos + bs <= gpos + remaining * bs) by (nonlinear_arith)
            requires
                remaining >= 1,
                bs > 0,
        ;
        let b = read(dev, pos, bs)?;
        if crate::device::any_nonzero(&b) {
            nz += 1;
        }
        assert(gpos + bs + (remaining - 1) * bs == gpos + remaining * bs) by (nonlinear_arith);
        if remaining > 1 {
            assert(gpos + bs + bs <= gpos + remaining * bs) by (nonlinear_arith)
                requires
                    remaining >= 2,
                    bs > 0,
            ;
        }
        remaining -= 1;
        proof {
            gpos = gpos + bs;
        }
        if remaining > 0 {
            pos = pos + bs;
        }
    }
    let mut name: Vec<char> = chars_of("log.nonzero_blocks_after_first_record");
    d.push(name, string_of(radix_chars(nz, 10).as_slice()), Class::Substantive);
    proof {
        let hdr = d@.subrange(d0.len() as int, d@.len() - 1);
        assert(d@ =~= d0 + hdr.push(d@.last()));
    }
    Ok(())
}

/// The primary superblock's geometry, where the device holds a v5 XFS
/// superblock whose geometry holds together.
pub open spec fn spec_geometry(c: Seq<u8>) -> Result<Geo, Fail> {
    if c.len() < GEO_BYTES || !(has_sb_magic(c) && is_v5(c)) {
        Err(Fail::NotXfs)
    } else if !geo_ok(geo_fields(c)) {
        Err(Fail::Corrupt)
    } else {
        Ok(geo_fields(c))
    }
}

/// The fields of the first `n` AGs.
pub open spec fn ags_visit(c: Seq<u8>, g: Geo, n: nat) -> Fields
    decreases n,
{
    if n == 0 {
        Ok(Seq::empty())
    } else {
        then(ags_visit(c, g, (n - 1) as nat), ag_visit(c, g, (n - 1) as u64))
    }
}

/// Every piece of metadata of the filesystem on `c`, in on-disk order:
/// each AG's headers, btrees and inodes, then the log. A geometry whose
/// AGs, inodes or log the reader cannot place is corrupt.
pub open spec fn spec_dump(c: Seq<u8>) -> Fields {
    match spec_geometry(c) {
        Err(e) => Err(e),
        Ok(g) => if !readable(g) {
            Err(Fail::Corrupt)
        } else {
            then(ags_visit(c, g, g.agcount as nat), log_visit(c, g))
        },
    }
}

proof fn lemma_prefix(h: Seq<u8>, c: Seq<u8>)
    requires
        h.len() >= GEO_BYTES,
        h.len() <= c.len(),
        h == c.subrange(0, h.len() as int),
    ensures
        geo_fields(h) == geo_fields(c),
        has_sb_magic(h) == has_sb_magic(c),
        is_v5(h) == is_v5(c),
{
    assert(forall|i: int| 0 <= i < GEO_BYTES ==> h[i] == c[i]);
}

/// Read the primary superblock's geometry. Its first sector is read
/// whole: the block size is not known yet.
pub fn geometry<D: BlockDevice>(dev: &D) -> (r: Result<Geo, Error>)
    ensures
        r matches Ok(g) ==> spec_geometry(dev.bytes()) == Ok::<Geo, Fail>(g),
        r is Err ==> !dev.reliable() || spec_geometry(dev.bytes()) is Err,
        dev.reliable() && spec_geometry(dev.bytes()) == Err::<Geo, Fail>(Fail::NotXfs) ==> (r matches Err(e)
            && e is NotXfs),
        dev.reliable() && spec_geometry(dev.bytes()) == Err::<Geo, Fail>(Fail::Corrupt) ==> (r matches Err(e)
            && e is Corrupt),
{
    let l = dev.logical_sector_size() as u64;
    let first: u64 = if l < 512 {
        512
    } else {
        l
    };
    let size = dev.size();
    let n = if first < size {
        first
    } else {
        size
    };
    let head = read(dev, 0, n)?;
    if head.len() < GEO_BYTES {
        return Err(Error::NotXfs(string_of(chars_of("too small to hold a superblock").as_slice())));
    }
    proof {
        lemma_prefix(head@, dev.bytes());
    }
    Geo::parse(head.as_slice())
}

proof fn lemma_ags_stay_err(c: Seq<u8>, g: Geo, n: nat, m: nat)
    requires
        n <= m,
        ags_visit(c, g, n) is Err,
    ensures
        ags_visit(c, g, m) == ags_visit(c, g, n),
    decreases m - n,
{
    if n < m {
        lemma_ags_stay_err(c, g, n, (m - 1) as nat);
    }
}

proof fn lemma_ags_err(c: Seq<u8>, g: Geo, agno: nat, acc: Seq<FieldView>)
    requires
        agno < g.agcount,
        ags_visit(c, g, agno) == Ok::<Seq<FieldView>, Fail>(acc),
        ag_visit(c, g, agno as u64) is Err,
    ensures
        ags_visit(c, g, g.agcount as nat) == Err::<Seq<FieldView>, Fail>(ag_visit(c, g, agno as u64)->Err_0),
{
    assert(ags_visit(c, g, agno + 1) == Err::<Seq<FieldView>, Fail>(ag_visit(c, g, agno as u64)->Err_0));
    lemma_ags_stay_err(c, g, agno + 1, g.agcount as nat);
}

/// Dump every piece of metadata on `dev`.
#[verifier::spinoff_prover]
pub fn dump<D: BlockDevice>(dev: &D) -> (r: Result<Dump, Error>)
    ensures
        r matches Ok(d) ==> spec_dump(dev.bytes()) == Ok::<Seq<FieldView>, Fail>(d@),
        r is Err ==> !dev.reliable() || spec_dump(dev.bytes()) is Err,
        dev.reliable() && spec_geometry(dev.bytes()) == Err::<Geo, Fail>(Fail::NotXfs) ==> (r matches Err(e)
            && e is NotXfs),
        dev.reliable() && spec_dump(dev.bytes()) == Err::<Seq<FieldView>, Fail>(Fail::Corrupt) ==> (r matches Err(
            e,
        ) && e is Corrupt),
{
    let g = geometry(dev)?;
    let ghost c = dev.bytes();
    if !g.is_readable() {
        return Err(Error::Corrupt(string_of(chars_of("superblock geometry cannot be placed on the device").as_slice())));
    }
    assert(walkable(g));
    let mut d = Dump::new();
    let ghost mut acc: Seq<FieldView> = Seq::empty();
    let mut agno: u64 = 0;
    while agno < g.agcount
        invariant
            agno <= g.agcount,
            walkable(g),
            c == dev.bytes(),
            spec_geometry(c) == Ok::<Geo, Fail>(g),
            ags_visit(c, g, agno as nat) == Ok::<Seq<FieldView>, Fail>(acc),
            d@ == acc,
        decreases g.agcount - agno,
    {
        let res = dump_ag(dev, &g, &mut d, agno);
        if res.is_err() {
            proof {
                if dev.reliable() {
                    lemma_ags_err(c, g, agno as nat, acc);
                }
            }
            return Err(res.unwrap_err());
        }
        proof {
            acc = acc + ag_visit(c, g, agno)->Ok_0;
        }
        agno += 1;
    }
    let res = dump_log(dev, &g, &mut d);
    if res.is_err() {
        proof {
            if dev.reliable() {
                lemma_log_err(c, g);
            }
        }
        return Err(res.unwrap_err());
    }
    Ok(d)
}



proof fn lemma_first_ag(c: Seq<u8>, g: Geo, n: nat)
    requires
        n >= 1,
        ags_visit(c, g, n) is Ok,
    ensures
        ag_visit(c, g, 0) is Ok,
        ag_visit(c, g, 0)->Ok_0.len() <= ags_visit(c, g, n)->Ok_0.len(),
        ags_visit(c, g, n)->Ok_0.subrange(0, ag_visit(c, g, 0)->Ok_0.len() as int) == ag_visit(c, g, 0)->Ok_0,
    decreases n,
{
    if n == 1 {
        assert(ags_visit(c, g, 0) == Ok::<Seq<FieldView>, Fail>(Seq::empty()));
        assert(ags_visit(c, g, 1)->Ok_0 =~= ag_visit(c, g, 0)->Ok_0);
    } else {
        lemma_first_ag(c, g, (n - 1) as nat);
        let x = ags_visit(c, g, (n - 1) as nat)->Ok_0;
        let f0 = ag_visit(c, g, 0)->Ok_0;
        let f = ags_visit(c, g, n)->Ok_0;
        assert(f == x + ag_visit(c, g, (n - 1) as u64)->Ok_0);
        assert(f.subrange(0, f0.len() as int) =~= x.subrange(0, f0.len() as int));
    }
}

/// A dump that reads through starts with the primary superblock's fields,
/// read from the device's first sector.
pub proof fn lemma_dump_starts_with_sb(c: Seq<u8>)
    requires
        spec_dump(c) is Ok,
    ensures
        spec_geometry(c) is Ok,
        spec_geometry(c)->Ok_0.sectsize <= c.len(),
        ({
            let ss = spec_geometry(c)->Ok_0.sectsize as int;
            let rows = rows_fields(key(indexed("ag"@, 0), "sb"@), c.subrange(0, ss), sb_rows(ss as usize));
            &&& rows.len() <= spec_dump(c)->Ok_0.len()
            &&& spec_dump(c)->Ok_0.subrange(0, rows.len() as int) == rows
        }),
{
    let g = spec_geometry(c)->Ok_0;
    let f = spec_dump(c)->Ok_0;
    let a = ags_visit(c, g, g.agcount as nat);
    assert(a is Ok);
    lemma_first_ag(c, g, g.agcount as nat);
    assert(f.subrange(0, a->Ok_0.len() as int) =~= a->Ok_0);
    reveal(ag_visit);
    lemma_head_blocks(g);
    let k = g.blocklog as u64;
    assert(0u64 << k == 0u64) by (bit_vector);
    assert(spec_byte(g, 0, 0) == 0);
    let ss = g.sectsize as int;
    let head = spec_read(c, 0, head_blocks(g) * g.blocksize)->Some_0;
    let f0 = ag_visit(c, g, 0)->Ok_0;
    let p = indexed("ag"@, 0);
    let sbf = rows_fields(key(p, "sb"@), head.subrange(0, ss), sb_rows(ss as usize));
    assert(head.subrange(0, ss) =~= c.subrange(0, ss));
    let hf = head_fields(head, 0, ss);
    assert(hf.subrange(0, sbf.len() as int) =~= sbf);
    assert(f0.subrange(0, hf.len() as int) =~= hf);
    assert(f.subrange(0, sbf.len() as int) =~= sbf);
}

} // verus!
