//! Walking a per-AG btree from its root, level by level, dumping every
//! block and gathering the leaf records.
use vstd::prelude::*;
use crate::bytes::{be16, be32, copy_range, push_zeros, spec_be16, spec_be32};
use crate::device::BlockDevice;
use crate::error::Error;
use crate::inspect::{spec_ag_len, spec_byte, readable, geo_ok, Class, Dump, FieldView, Geo};
use crate::inspect::render::{
    add_row_chars, all_fit, fits, key, key_chars, push_rows, rows_fields, rows_view, Render, Row, RowView,
};
use crate::inspect::tables::{lemma_tree_fits, tree_rows, tree_table};
use crate::structs::btree::off as bto;
use crate::structs::btree::{magic, ALLOC_REC, INOBT_REC, REFC_REC, RMAP_REC};
use crate::text::{append, chars_of, hex, radix_chars, spec_dec, spec_hex, string_of};

verus! {

/// The bytes `len` bytes at `off` of `c`, where they lie within it.
pub open spec fn spec_read(c: Seq<u8>, off: int, len: int) -> Option<Seq<u8>> {
    if 0 <= off && 0 <= len && off + len <= c.len() {
        Some(c.subrange(off, off + len))
    } else {
        None
    }
}

/// Read `len` bytes at `offset`.
pub fn read<D: BlockDevice>(dev: &D, offset: u64, len: u64) -> (r: Result<Vec<u8>, Error>)
    requires
        len <= u32::MAX,
    ensures
        r matches Ok(b) ==> spec_read(dev.bytes(), offset as int, len as int) == Some(b@),
        r is Err ==> !dev.reliable() || spec_read(dev.bytes(), offset as int, len as int) is None,
{
    let mut buf: Vec<u8> = Vec::new();
    push_zeros(&mut buf, len as usize);
    let r = dev.read_at(offset, buf.as_mut_slice());
    match r {
        Ok(()) => Ok(buf),
        Err(e) => Err(e),
    }
}

/// The per-AG btrees.
#[derive(Debug, Clone, Copy)]
pub enum Tree {
    /// Free space by block.
    Bno,
    /// Free space by size.
    Cnt,
    /// Inode chunks.
    Ino,
    /// Inode chunks with free inodes.
    Fino,
    /// Reverse mappings.
    Rmap,
    /// Reference counts.
    Refc,
}

/// The tree's name in a dump.
pub open spec fn tree_name(t: Tree) -> Seq<char> {
    match t {
        Tree::Bno => "bnobt"@,
        Tree::Cnt => "cntbt"@,
        Tree::Ino => "inobt"@,
        Tree::Fino => "finobt"@,
        Tree::Rmap => "rmapbt"@,
        Tree::Refc => "refcntbt"@,
    }
}

/// The tree's block magic.
pub open spec fn tree_magic(t: Tree) -> u32 {
    match t {
        Tree::Bno => magic::BNO,
        Tree::Cnt => magic::CNT,
        Tree::Ino => magic::INO,
        Tree::Fino => magic::FINO,
        Tree::Rmap => magic::RMAP,
        Tree::Refc => magic::REFC,
    }
}

/// The size of a key in the tree's nodes. The reverse-mapping tree
/// overlaps: each of its node entries holds a low and a high key.
pub open spec fn tree_key(t: Tree) -> usize {
    match t {
        Tree::Bno => 8,
        Tree::Cnt => 8,
        Tree::Ino => 4,
        Tree::Fino => 4,
        Tree::Rmap => 40,
        Tree::Refc => 4,
    }
}

/// The size of a record in the tree's leaves.
pub open spec fn tree_rec(t: Tree) -> usize {
    match t {
        Tree::Bno => ALLOC_REC,
        Tree::Cnt => ALLOC_REC,
        Tree::Ino => INOBT_REC,
        Tree::Fino => INOBT_REC,
        Tree::Rmap => RMAP_REC,
        Tree::Refc => REFC_REC,
    }
}

impl Tree {
    /// The tree's name in a dump.
    pub fn name(self) -> (r: Vec<char>)
        ensures
            r@ == tree_name(self),
    {
        match self {
            Tree::Bno => chars_of("bnobt"),
            Tree::Cnt => chars_of("cntbt"),
            Tree::Ino => chars_of("inobt"),
            Tree::Fino => chars_of("finobt"),
            Tree::Rmap => chars_of("rmapbt"),
            Tree::Refc => chars_of("refcntbt"),
        }
    }

    /// The tree's block magic.
    pub fn magic(self) -> (r: u32)
        ensures
            r == tree_magic(self),
    {
        match self {
            Tree::Bno => magic::BNO,
            Tree::Cnt => magic::CNT,
            Tree::Ino => magic::INO,
            Tree::Fino => magic::FINO,
            Tree::Rmap => magic::RMAP,
            Tree::Refc => magic::REFC,
        }
    }

    /// The size of a key in the tree's nodes.
    pub fn key_size(self) -> (r: usize)
        ensures
            r == tree_key(self),
    {
        match self {
            Tree::Bno => 8,
            Tree::Cnt => 8,
            Tree::Ino => 4,
            Tree::Fino => 4,
            Tree::Rmap => 40,
            Tree::Refc => 4,
        }
    }

    /// The size of a record in the tree's leaves.
    pub fn rec_size(self) -> (r: usize)
        ensures
            r == tree_rec(self),
    {
        match self {
            Tree::Bno => ALLOC_REC,
            Tree::Cnt => ALLOC_REC,
            Tree::Ino => INOBT_REC,
            Tree::Fino => INOBT_REC,
            Tree::Rmap => RMAP_REC,
            Tree::Refc => REFC_REC,
        }
    }
}

/// `base[i]`.
pub open spec fn indexed(base: Seq<char>, i: nat) -> Seq<char> {
    base + seq!['['] + spec_dec(i) + seq![']']
}

/// `base[i]`, as characters.
pub fn indexed_chars(base: &[char], i: u64) -> (r: Vec<char>)
    ensures
        r@ == indexed(base@, i as nat),
{
    let mut r: Vec<char> = Vec::new();
    append(&mut r, base);
    r.push('[');
    let d = radix_chars(i, 10);
    append(&mut r, d.as_slice());
    r.push(']');
    assert(r@ =~= indexed(base@, i as nat));
    r
}

/// The prefix of block `i` of level `depth` of the tree dumped under `tp`.
pub open spec fn block_prefix(tp: Seq<char>, depth: nat, i: nat) -> Seq<char> {
    indexed(key(tp, seq!['l'] + spec_dec(depth)), i)
}

/// The smaller of two numbers.
pub open spec fn min_nat(a: nat, b: nat) -> nat {
    if a < b {
        a
    } else {
        b
    }
}

/// The rows of the first `m` records of a leaf.
pub open spec fn rec_rows(t: Tree, m: nat) -> Seq<RowView>
    decreases m,
{
    if m == 0 {
        Seq::empty()
    } else {
        rec_rows(t, (m - 1) as nat).push(
            (
                indexed("rec"@, (m - 1) as nat),
                Render::Full(
                    (bto::RECS + (m - 1) * tree_rec(t)) as usize,
                    (bto::RECS + m * tree_rec(t)) as usize,
                ),
            ),
        )
    }
}

/// The rows of the first `m` keys and pointers of a node with room for
/// `maxrecs`.
pub open spec fn node_rows(t: Tree, m: nat, maxrecs: nat) -> Seq<RowView>
    decreases m,
{
    if m == 0 {
        Seq::empty()
    } else {
        node_rows(t, (m - 1) as nat, maxrecs).push(
            (
                indexed("key"@, (m - 1) as nat),
                Render::Full(
                    (bto::RECS + (m - 1) * tree_key(t)) as usize,
                    (bto::RECS + m * tree_key(t)) as usize,
                ),
            ),
        ).push(
            (
                indexed("ptr"@, (m - 1) as nat),
                Render::Dec((bto::RECS + maxrecs * tree_key(t) + 4 * (m - 1)) as usize, 4),
            ),
        )
    }
}

/// The first `m` records of a leaf.
pub open spec fn leaf_recs(b: Seq<u8>, t: Tree, m: nat) -> Seq<Seq<u8>> {
    Seq::new(
        m,
        |r: int| b.subrange(bto::RECS + r * tree_rec(t), bto::RECS + (r + 1) * tree_rec(t)),
    )
}

/// The first `m` pointers of a node with room for `maxrecs`.
pub open spec fn node_ptrs(b: Seq<u8>, t: Tree, m: nat, maxrecs: nat) -> Seq<u64> {
    Seq::new(m, |r: int| spec_be32(b, bto::RECS + maxrecs * tree_key(t) + 4 * r) as u64)
}

/// What a block of a walk gives: its fields, the blocks it points to, and
/// its leaf records.
pub type Visit = (Seq<FieldView>, Seq<u64>, Seq<Seq<u8>>);

/// The number of records a block's header claims, up to what fits.
pub open spec fn leaf_count(b: Seq<u8>, t: Tree) -> nat {
    min_nat(spec_be16(b, bto::NUMRECS as int) as nat, ((b.len() - bto::RECS) / tree_rec(t) as int) as nat)
}

/// The entries a node has room for.
pub open spec fn node_room(b: Seq<u8>, t: Tree) -> nat {
    ((b.len() - bto::RECS) / (tree_key(t) + 4) as int) as nat
}

/// The number of entries a node's header claims, up to its room.
pub open spec fn node_count(b: Seq<u8>, t: Tree) -> nat {
    min_nat(spec_be16(b, bto::NUMRECS as int) as nat, node_room(b, t))
}

/// What block `agbno`, read as `b`, gives under the prefix `bp`: its
/// number and magic; then, where the magic is the tree's, its header, and
/// either its records and slack (a leaf) or its keys and pointers.
pub open spec fn block_visit(b: Seq<u8>, t: Tree, bp: Seq<char>, agbno: u64) -> Visit {
    let first = seq![
        (key(bp, "block"@), spec_dec(agbno as nat), Class::Substantive),
        (key(bp, "magic"@), spec_hex(spec_be32(b, bto::MAGIC as int) as nat), Class::Substantive),
    ];
    if spec_be32(b, bto::MAGIC as int) != tree_magic(t) {
        (first, Seq::empty(), Seq::empty())
    } else if spec_be16(b, bto::LEVEL as int) == 0 {
        let m = leaf_count(b, t);
        let rows = rec_rows(t, m).push(
            ("slack"@, Render::Trim((bto::RECS + m * tree_rec(t)) as usize, b.len() as usize)),
        );
        (first + rows_fields(bp, b, tree_rows()) + rows_fields(bp, b, rows), Seq::empty(), leaf_recs(b, t, m))
    } else {
        let m = node_count(b, t);
        (
            first + rows_fields(bp, b, tree_rows()) + rows_fields(bp, b, node_rows(t, m, node_room(b, t))),
            node_ptrs(b, t, m, node_room(b, t)),
            Seq::empty(),
        )
    }
}

/// Why reading a filesystem's metadata stops.
#[derive(Debug, Clone, Copy, PartialEq, Eq, Structural)]
pub enum Fail {
    /// A read falls outside the device.
    Unreadable,
    /// The device does not hold a v5 XFS superblock.
    NotXfs,
    /// The metadata does not hold together.
    Corrupt,
}

/// What block `agbno` of AG `agno` gives, read from `c`: a note where it
/// lies outside the AG.
pub open spec fn visit_block(c: Seq<u8>, g: Geo, agno: u64, t: Tree, bp: Seq<char>, agbno: u64) -> Result<Visit, Fail> {
    if agbno >= spec_ag_len(g, agno) {
        Ok(
            (
                seq![(key(bp, "block"@), spec_dec(agbno as nat) + " (outside the AG)"@, Class::Substantive)],
                Seq::empty(),
                Seq::empty(),
            ),
        )
    } else {
        match spec_read(c, spec_byte(g, agno, agbno) as int, g.blocksize as int) {
            None => Err(Fail::Unreadable),
            Some(b) => Ok(block_visit(b, t, bp, agbno)),
        }
    }
}

/// What the first `n` blocks of `level` give, in order.
pub open spec fn visit_level(
    c: Seq<u8>,
    g: Geo,
    agno: u64,
    t: Tree,
    tp: Seq<char>,
    depth: nat,
    level: Seq<u64>,
    n: nat,
) -> Result<Visit, Fail>
    decreases n,
{
    if n == 0 {
        Ok((Seq::empty(), Seq::empty(), Seq::empty()))
    } else {
        match visit_level(c, g, agno, t, tp, depth, level, (n - 1) as nat) {
            Err(e) => Err(e),
            Ok(v) => match visit_block(c, g, agno, t, block_prefix(tp, depth, (n - 1) as nat), level[n - 1]) {
                Err(e) => Err(e),
                Ok(w) => Ok((v.0 + w.0, v.1 + w.1, v.2 + w.2)),
            },
        }
    }
}

/// The fields and leaf records of the walk from `level` at `depth` down:
/// a tree deeper than sixteen levels is corrupt.
pub open spec fn walk(c: Seq<u8>, g: Geo, agno: u64, t: Tree, tp: Seq<char>, level: Seq<u64>, depth: nat) -> Result<
    (Seq<FieldView>, Seq<Seq<u8>>),
    Fail,
>
    decreases 16 - depth,
{
    if level.len() == 0 {
        Ok((Seq::empty(), Seq::empty()))
    } else {
        match visit_level(c, g, agno, t, tp, depth, level, level.len()) {
            Err(e) => Err(e),
            Ok(v) => if depth + 1 > 16 {
                Err(Fail::Corrupt)
            } else {
                match walk(c, g, agno, t, tp, v.1, depth + 1) {
                    Err(e) => Err(e),
                    Ok(w) => Ok((v.0 + w.0, v.2 + w.1)),
                }
            },
        }
    }
}

/// The records as byte sequences.
pub open spec fn recs_view(v: Seq<Vec<u8>>) -> Seq<Seq<u8>> {
    v.map_values(|x: Vec<u8>| x@)
}

/// The geometry a walk relies on.
pub open spec fn walkable(g: Geo) -> bool {
    &&& geo_ok(g)
    &&& readable(g)
    &&& g.agcount <= u32::MAX
    &&& g.agblocks <= u32::MAX
}

pub proof fn lemma_block_offsets(g: Geo, agno: u64, agbno: u64)
    requires
        walkable(g),
        agno < g.agcount,
        agbno < spec_ag_len(g, agno),
    ensures
        agno * g.agblocks + agbno <= u64::MAX,
{
    assert(agno * g.agblocks <= (g.agcount - 1) * g.agblocks) by (nonlinear_arith)
        requires
            agno <= g.agcount - 1,
    ;
    if agno == g.agcount - 1 {
        assert(agno * g.agblocks + agbno < g.dblocks);
    } else {
        assert(agno * g.agblocks + agbno < g.agcount * g.agblocks) by (nonlinear_arith)
            requires
                agno < g.agcount,
                agbno < g.agblocks,
        ;
        assert(g.agcount * g.agblocks <= u32::MAX * u32::MAX) by (nonlinear_arith)
            requires
                g.agcount <= u32::MAX,
                g.agblocks <= u32::MAX,
        ;
    }
}

/// Dump one block of a walk, under the prefix `bp`, and gather what it
/// points to and the records it holds.
#[verifier::spinoff_prover]
fn dump_block<D: BlockDevice>(
    dev: &D,
    g: &Geo,
    d: &mut Dump,
    agno: u64,
    t: Tree,
    bp: &Vec<char>,
    agbno: u64,
    next: &mut Vec<u64>,
    leaves: &mut Vec<Vec<u8>>,
) -> (r: Result<(), Error>)
    requires
        walkable(*g),
        agno < g.agcount,
    ensures
        r is Ok ==> match visit_block(dev.bytes(), *g, agno, t, bp@, agbno) {
            Ok(v) => {
                &&& final(d)@ == old(d)@ + v.0
                &&& final(next)@ == old(next)@ + v.1
                &&& recs_view(final(leaves)@) == recs_view(old(leaves)@) + v.2
            },
            Err(_) => false,
        },
        r is Err ==> !dev.reliable() || visit_block(dev.bytes(), *g, agno, t, bp@, agbno) == Err::<Visit, Fail>(
            Fail::Unreadable,
        ),
{
    let len = g.ag_len(agno);
    if agbno >= len {
        let k = key_chars(bp.as_slice(), chars_of("block").as_slice());
        let mut v = radix_chars(agbno, 10);
        append(&mut v, chars_of(" (outside the AG)").as_slice());
        d.push(k, string_of(v.as_slice()), Class::Substantive);
        assert(next@ =~= old(next)@ + Seq::<u64>::empty());
        assert(recs_view(leaves@) =~= recs_view(old(leaves)@) + Seq::<Seq<u8>>::empty());
        return Ok(());
    }
    proof {
        lemma_block_offsets(*g, agno, agbno);
    }
    let b = read(dev, g.byte(agno, agbno), g.blocksize)?;
    let ghost bv = block_visit(b@, t, bp@, agbno);
    let ghost d0 = d@;
    d.push(key_chars(bp.as_slice(), chars_of("block").as_slice()), string_of(radix_chars(agbno, 10).as_slice()), Class::Substantive);
    let m = be32(b.as_slice(), bto::MAGIC);
    d.push(key_chars(bp.as_slice(), chars_of("magic").as_slice()), hex(m as u64), Class::Substantive);
    let ghost first = d@.subrange(d0.len() as int, d@.len() as int);
    assert(d@ =~= d0 + first);
    if m != t.magic() {
        assert(next@ =~= old(next)@ + Seq::<u64>::empty());
        assert(recs_view(leaves@) =~= recs_view(old(leaves)@) + Seq::<Seq<u8>>::empty());
        return Ok(());
    }
    let hdr = tree_table();
    proof {
        lemma_tree_fits(b@.len() as usize);
    }
    push_rows(d, bp.as_slice(), b.as_slice(), &hdr);
    let level = be16(b.as_slice(), bto::LEVEL);
    if level == 0 {
        let rows = leaf_part(&b, t, leaves);
        push_rows(d, bp.as_slice(), b.as_slice(), &rows);
        assert(next@ =~= old(next)@ + Seq::<u64>::empty());
    } else {
        let rows = node_part(&b, t, next);
        push_rows(d, bp.as_slice(), b.as_slice(), &rows);
        assert(recs_view(leaves@) =~= recs_view(old(leaves)@) + Seq::<Seq<u8>>::empty());
    }
    Ok(())
}

/// The rows of a leaf's records and slack; its records are gathered.
fn leaf_part(b: &Vec<u8>, t: Tree, leaves: &mut Vec<Vec<u8>>) -> (rows: Vec<Row>)
    requires
        b@.len() >= bto::RECS,
    ensures
        rows_view(rows@) == rec_rows(t, leaf_count(b@, t)).push(
            ("slack"@, Render::Trim((bto::RECS + leaf_count(b@, t) * tree_rec(t)) as usize, b@.len() as usize)),
        ),
        all_fit(b@.len(), rows_view(rows@)),
        recs_view(final(leaves)@) == recs_view(old(leaves)@) + leaf_recs(b@, t, leaf_count(b@, t)),
{
    let blen = b.len();
    let n = be16(b.as_slice(), bto::NUMRECS) as usize;
    let space = blen - bto::RECS;
    let rec = t.rec_size();
    let m: usize = if n < space / rec { n } else { space / rec };
    assert(m * rec <= space) by (nonlinear_arith)
        requires
            m <= space / rec,
            rec > 0,
    ;
    let mut rows: Vec<Row> = Vec::new();
    let ghost l0 = recs_view(leaves@);
    let mut r: usize = 0;
    while r < m
        invariant
            r <= m,
            m * rec <= space,
            blen == b@.len(),
            space == b@.len() - bto::RECS,
            rec == tree_rec(t),
            rows_view(rows@) == rec_rows(t, r as nat),
            recs_view(leaves@) == l0 + leaf_recs(b@, t, r as nat),
            all_fit(b@.len(), rows_view(rows@)),
        decreases m - r,
    {
        assert(r * rec + rec <= m * rec) by (nonlinear_arith)
            requires
                r < m,
        ;
        assert((r + 1) * rec == r * rec + rec) by (nonlinear_arith);
        let at = bto::RECS + r * rec;
        let name = indexed_chars(chars_of("rec").as_slice(), r as u64);
        add_row_chars(&mut rows, name, Render::Full(at, at + rec));
        let piece = copy_range(b.as_slice(), at, at + rec);
        let ghost prev = leaves@;
        leaves.push(piece);
        assert(recs_view(leaves@) =~= recs_view(prev).push(piece@));
        assert(leaf_recs(b@, t, (r + 1) as nat) =~= leaf_recs(b@, t, r as nat).push(piece@));
        r += 1;
    }
    add_row_chars(&mut rows, chars_of("slack"), Render::Trim(bto::RECS + m * rec, blen));
    assert(m == leaf_count(b@, t));
    rows
}

/// The rows of a node's keys and pointers; the blocks it points to are
/// gathered.
fn node_part(b: &Vec<u8>, t: Tree, next: &mut Vec<u64>) -> (rows: Vec<Row>)
    requires
        b@.len() >= bto::RECS,
    ensures
        rows_view(rows@) == node_rows(t, node_count(b@, t), node_room(b@, t)),
        all_fit(b@.len(), rows_view(rows@)),
        final(next)@ == old(next)@ + node_ptrs(b@, t, node_count(b@, t), node_room(b@, t)),
{
    let blen = b.len();
    let n = be16(b.as_slice(), bto::NUMRECS) as usize;
    let space = blen - bto::RECS;
    let keysz = t.key_size();
    let maxrecs = space / (keysz + 4);
    let m: usize = if n < maxrecs { n } else { maxrecs };
    assert(maxrecs * (keysz + 4) <= space) by (nonlinear_arith)
        requires
            maxrecs as int == space as int / (keysz + 4),
            keysz + 4 > 0,
    ;
    let mut rows: Vec<Row> = Vec::new();
    let ghost n0 = next@;
    let mut r: usize = 0;
    while r < m
        invariant
            r <= m <= maxrecs,
            maxrecs * (keysz + 4) <= space,
            blen == b@.len(),
            space == b@.len() - bto::RECS,
            keysz == tree_key(t),
            maxrecs == node_room(b@, t),
            rows_view(rows@) == node_rows(t, r as nat, maxrecs as nat),
            next@ == n0 + node_ptrs(b@, t, r as nat, maxrecs as nat),
            all_fit(b@.len(), rows_view(rows@)),
        decreases m - r,
    {
        assert(r * keysz + keysz <= maxrecs * keysz) by (nonlinear_arith)
            requires
                r < maxrecs,
        ;
        assert(maxrecs * keysz + 4 * r + 4 <= maxrecs * (keysz + 4)) by (nonlinear_arith)
            requires
                r < maxrecs,
        ;
        let k = bto::RECS + r * keysz;
        let p = bto::RECS + maxrecs * keysz + 4 * r;
        add_row_chars(&mut rows, indexed_chars(chars_of("key").as_slice(), r as u64), Render::Full(k, k + keysz));
        add_row_chars(&mut rows, indexed_chars(chars_of("ptr").as_slice(), r as u64), Render::Dec(p, 4));
        next.push(be32(b.as_slice(), p) as u64);
        r += 1;
        assert(next@ =~= n0 + node_ptrs(b@, t, r as nat, maxrecs as nat));
    }
    assert(m == node_count(b@, t));
    rows
}

/// The prefix under which AG `agno`'s tree `t` is dumped.
pub open spec fn tree_prefix(agno: u64, t: Tree) -> Seq<char> {
    key(indexed("ag"@, agno as nat), tree_name(t))
}

proof fn lemma_level_stays_err(
    c: Seq<u8>,
    g: Geo,
    agno: u64,
    t: Tree,
    tp: Seq<char>,
    depth: nat,
    level: Seq<u64>,
    n: nat,
    m: nat,
)
    requires
        n <= m,
        visit_level(c, g, agno, t, tp, depth, level, n) is Err,
    ensures
        visit_level(c, g, agno, t, tp, depth, level, m) == visit_level(c, g, agno, t, tp, depth, level, n),
    decreases m - n,
{
    if n < m {
        lemma_level_stays_err(c, g, agno, t, tp, depth, level, n, (m - 1) as nat);
    }
}

/// Walk the tree `t` of AG `agno` from `root`, level by level, dumping
/// every block; the leaf records come back in order.
#[verifier::spinoff_prover]
#[verifier::rlimit(50)]
pub fn dump_tree<D: BlockDevice>(dev: &D, g: &Geo, d: &mut Dump, agno: u64, t: Tree, root: u64) -> (r: Result<
    Vec<Vec<u8>>,
    Error,
>)
    requires
        walkable(*g),
        agno < g.agcount,
    ensures
        r matches Ok(l) ==> match walk(dev.bytes(), *g, agno, t, tree_prefix(agno, t), seq![root], 0) {
            Ok(w) => final(d)@ == old(d)@ + w.0 && recs_view(l@) == w.1,
            Err(_) => false,
        },
        r is Err ==> !dev.reliable() || walk(dev.bytes(), *g, agno, t, tree_prefix(agno, t), seq![root], 0) is Err,
        dev.reliable() && walk(dev.bytes(), *g, agno, t, tree_prefix(agno, t), seq![root], 0) == Err::<
            (Seq<FieldView>, Seq<Seq<u8>>),
            Fail,
        >(Fail::Corrupt) ==> (r matches Err(e) && e is Corrupt),
{
    let ag = indexed_chars(chars_of("ag").as_slice(), agno);
    let tp = key_chars(ag.as_slice(), t.name().as_slice());
    let ghost c = dev.bytes();
    let ghost total = walk(c, *g, agno, t, tp@, seq![root], 0);
    let mut level: Vec<u64> = vec![root];
    let mut leaves: Vec<Vec<u8>> = Vec::new();
    let mut depth: u64 = 0;
    let ghost d0 = d@;
    let ghost mut acc_f: Seq<FieldView> = Seq::empty();
    let ghost mut acc_l: Seq<Seq<u8>> = Seq::empty();
    assert(level@ =~= seq![root]);
    assert(d@ =~= d0 + acc_f);
    assert(recs_view(leaves@) =~= acc_l);
    proof {
        if let Ok(w) = total {
            assert(acc_f + w.0 =~= w.0);
            assert(acc_l + w.1 =~= w.1);
        }
    }
    while level.len() > 0
        invariant
            depth <= 16,
            walkable(*g),
            agno < g.agcount,
            c == dev.bytes(),
            tp@ == tree_prefix(agno, t),
            total == walk(c, *g, agno, t, tp@, seq![root], 0),
            total == (match walk(c, *g, agno, t, tp@, level@, depth as nat) {
                Err(e) => Err::<(Seq<FieldView>, Seq<Seq<u8>>), Fail>(e),
                Ok(w) => Ok((acc_f + w.0, acc_l + w.1)),
            }),
            d@ == d0 + acc_f,
            recs_view(leaves@) == acc_l,
        decreases 16 - depth,
    {
        let mut next: Vec<u64> = Vec::new();
        let lname = key_chars(tp.as_slice(), {
            let mut l = vec!['l'];
            append(&mut l, radix_chars(depth, 10).as_slice());
            l
        }.as_slice());
        let ghost mut lvl_f: Seq<FieldView> = Seq::empty();
        let ghost mut lvl_l: Seq<Seq<u8>> = Seq::empty();
        assert(d@ =~= d0 + acc_f + lvl_f);
        assert(recs_view(leaves@) =~= acc_l + lvl_l);
        assert(next@ =~= Seq::<u64>::empty());
        assert(total is Ok ==> visit_level(c, *g, agno, t, tp@, depth as nat, level@, level@.len()) is Ok);
        assert(visit_level(c, *g, agno, t, tp@, depth as nat, level@, level@.len()) is Err ==> total
            == Err::<(Seq<FieldView>, Seq<Seq<u8>>), Fail>(
            visit_level(c, *g, agno, t, tp@, depth as nat, level@, level@.len())->Err_0,
        ));
        let mut i: usize = 0;
        while i < level.len()
            invariant
                i <= level@.len(),
                depth <= 16,
                walkable(*g),
                agno < g.agcount,
                c == dev.bytes(),
                lname@ == key(tp@, seq!['l'] + spec_dec(depth as nat)),
                tp@ == tree_prefix(agno, t),
                total == walk(c, *g, agno, t, tp@, seq![root], 0),
                total is Ok ==> visit_level(c, *g, agno, t, tp@, depth as nat, level@, level@.len()) is Ok,
                visit_level(c, *g, agno, t, tp@, depth as nat, level@, level@.len()) is Err ==> total
                    == Err::<(Seq<FieldView>, Seq<Seq<u8>>), Fail>(
                    visit_level(c, *g, agno, t, tp@, depth as nat, level@, level@.len())->Err_0,
                ),
                visit_level(c, *g, agno, t, tp@, depth as nat, level@, i as nat) == Ok::<Visit, Fail>((lvl_f, next@, lvl_l)),
                d@ == d0 + acc_f + lvl_f,
                recs_view(leaves@) == acc_l + lvl_l,
            decreases level@.len() - i,
        {
            let bp = indexed_chars(lname.as_slice(), i as u64);
            assert(bp@ =~= block_prefix(tp@, depth as nat, i as nat));
            let ghost df = d@;
            let ghost nf = next@;
            let ghost lf = recs_view(leaves@);
            let res = dump_block(dev, g, d, agno, t, &bp, level[i], &mut next, &mut leaves);
            if res.is_err() {
                proof {
                    if dev.reliable() {
                        lemma_level_stays_err(c, *g, agno, t, tp@, depth as nat, level@, (i + 1) as nat, level@.len());
                    }
                }
                return Err(res.unwrap_err());
            }
            proof {
                let w = visit_block(c, *g, agno, t, bp@, level@[i as int])->Ok_0;
                assert(d@ =~= d0 + acc_f + (lvl_f + w.0));
                assert(recs_view(leaves@) =~= acc_l + (lvl_l + w.2));
                lvl_f = lvl_f + w.0;
                lvl_l = lvl_l + w.2;
            }
            i += 1;
        }
        proof {
            if depth + 1 <= 16 {
                if let Ok(w) = walk(c, *g, agno, t, tp@, next@, (depth + 1) as nat) {
                    assert(acc_f + (lvl_f + w.0) =~= (acc_f + lvl_f) + w.0);
                    assert(acc_l + (lvl_l + w.1) =~= (acc_l + lvl_l) + w.1);
                }
            }
            acc_f = acc_f + lvl_f;
            acc_l = acc_l + lvl_l;
        }
        level = next;
        depth += 1;
        if depth > 16 {
            let mut msg: Vec<char> = Vec::new();
            append(&mut msg, tp.as_slice());
            append(&mut msg, chars_of(" is deeper than any real btree").as_slice());
            return Err(Error::Corrupt(string_of(msg.as_slice())));
        }
    }
    proof {
        assert(acc_f + Seq::<FieldView>::empty() =~= acc_f);
        assert(acc_l + Seq::<Seq<u8>>::empty() =~= acc_l);
    }
    Ok(leaves)
}

/// Every sequence in `s` is `n` long.
pub open spec fn all_len(s: Seq<Seq<u8>>, n: nat) -> bool {
    forall|j: int| 0 <= j < s.len() ==> #[trigger] s[j].len() == n
}

proof fn lemma_block_recs(c: Seq<u8>, g: Geo, agno: u64, t: Tree, bp: Seq<char>, agbno: u64)
    requires
        visit_block(c, g, agno, t, bp, agbno) is Ok,
        g.blocksize >= 512,
    ensures
        all_len(visit_block(c, g, agno, t, bp, agbno)->Ok_0.2, tree_rec(t) as nat),
{
    if agbno < spec_ag_len(g, agno) {
        let b = spec_read(c, spec_byte(g, agno, agbno) as int, g.blocksize as int).unwrap();
        if spec_be32(b, bto::MAGIC as int) == tree_magic(t) && spec_be16(b, bto::LEVEL as int) == 0 {
            let m = leaf_count(b, t);
            let rec = tree_rec(t) as int;
            let space = b.len() - bto::RECS;
            assert(m * rec <= space) by (nonlinear_arith)
                requires
                    m <= space / rec,
                    rec > 0,
                    space >= 0,
            ;
            assert forall|r: int| 0 <= r < m implies #[trigger] leaf_recs(b, t, m)[r].len() == rec by {
                assert(r * rec + rec <= m * rec) by (nonlinear_arith)
                    requires
                        r < m,
                        rec > 0,
                ;
                assert((r + 1) * rec == r * rec + rec) by (nonlinear_arith);
            }
        }
    }
}

proof fn lemma_level_recs(c: Seq<u8>, g: Geo, agno: u64, t: Tree, tp: Seq<char>, depth: nat, level: Seq<u64>, n: nat)
    requires
        visit_level(c, g, agno, t, tp, depth, level, n) is Ok,
        g.blocksize >= 512,
    ensures
        all_len(visit_level(c, g, agno, t, tp, depth, level, n)->Ok_0.2, tree_rec(t) as nat),
    decreases n,
{
    if n > 0 {
        let v = visit_level(c, g, agno, t, tp, depth, level, (n - 1) as nat)->Ok_0;
        lemma_level_recs(c, g, agno, t, tp, depth, level, (n - 1) as nat);
        let bp = block_prefix(tp, depth, (n - 1) as nat);
        lemma_block_recs(c, g, agno, t, bp, level[n - 1]);
        let w = visit_block(c, g, agno, t, bp, level[n - 1])->Ok_0;
        assert forall|j: int| 0 <= j < (v.2 + w.2).len() implies #[trigger] (v.2 + w.2)[j].len() == tree_rec(t) by {
            if j >= v.2.len() {
                assert((v.2 + w.2)[j] == w.2[j - v.2.len()]);
            }
        }
    }
}

/// The leaf records a walk gathers are each a whole record of the tree.
pub proof fn lemma_walk_recs(c: Seq<u8>, g: Geo, agno: u64, t: Tree, tp: Seq<char>, level: Seq<u64>, depth: nat)
    requires
        walk(c, g, agno, t, tp, level, depth) is Ok,
        g.blocksize >= 512,
    ensures
        all_len(walk(c, g, agno, t, tp, level, depth)->Ok_0.1, tree_rec(t) as nat),
    decreases 16 - depth,
{
    if level.len() > 0 {
        let v = visit_level(c, g, agno, t, tp, depth, level, level.len())->Ok_0;
        lemma_level_recs(c, g, agno, t, tp, depth, level, level.len());
        lemma_walk_recs(c, g, agno, t, tp, v.1, depth + 1);
        let w = walk(c, g, agno, t, tp, v.1, depth + 1)->Ok_0;
        assert forall|j: int| 0 <= j < (v.2 + w.1).len() implies #[trigger] (v.2 + w.1)[j].len() == tree_rec(t) by {
            if j >= v.2.len() {
                assert((v.2 + w.1)[j] == w.1[j - v.2.len()]);
            }
        }
    }
}

} // verus!
