//! Read an XFS filesystem's metadata into a flat, ordered list of named
//! fields — the form [`crate::compare`] diffs, and a readable dump.
//!
//! Each field is classed:
//!
//! - [`Class::Identity`] — the UUID, which a comparison pins or ignores;
//! - [`Class::Incidental`] — values `mkfs.xfs` draws at random or from the
//!   clock (timestamps, inode generations) and the raw CRCs that follow
//!   from them. Whether each CRC *verifies* is structural;
//! - [`Class::Substantive`] — everything else. Any difference here is a
//!   difference in the filesystem.
pub mod readback;
pub mod render;
pub mod tables;
pub mod walk;
pub mod whole;

use vstd::prelude::*;
use crate::bytes::{be16, be32, be64, spec_be16, spec_be32, spec_be64};
use crate::error::Error;
use crate::geometry::{is_power_of_two, power_of_two};
use crate::structs::sb;
use crate::structs::sb::off as sbo;
use crate::text::{append, chars_of, string_of};
use vstd::arithmetic::power2::pow2;

verus! {

/// How a field's difference is judged.
#[derive(Debug, Clone, Copy, PartialEq, Eq, Structural)]
pub enum Class {
    /// A real difference in the filesystem.
    Substantive,
    /// The filesystem UUID.
    Identity,
    /// Random or clock-derived, and the checksums that cover them.
    Incidental,
}

/// One named value.
#[derive(Debug, Clone)]
pub struct Field {
    /// Where it is, e.g. `ag[2].agf.freeblks`.
    pub key: String,
    /// Its value, rendered.
    pub value: String,
    /// How a difference in it is judged.
    pub class: Class,
}

/// A field as its key's text, its value's text and its class.
pub type FieldView = (Seq<char>, Seq<char>, Class);

impl View for Field {
    type V = FieldView;

    open spec fn view(&self) -> FieldView {
        (self.key@, self.value@, self.class)
    }
}

/// Everything read, in on-disk order.
#[derive(Debug, Clone)]
pub struct Dump {
    /// The fields.
    pub fields: Vec<Field>,
}

impl View for Dump {
    type V = Seq<FieldView>;

    open spec fn view(&self) -> Seq<FieldView> {
        self.fields@.map_values(|f: Field| f@)
    }
}

/// Index of the first field whose key is `key`, or the number of fields.
pub open spec fn find_key(fields: Seq<FieldView>, key: Seq<char>) -> int
    decreases fields.len(),
{
    if fields.len() == 0 {
        0
    } else if fields[0].0 == key {
        0
    } else {
        1 + find_key(fields.drop_first(), key)
    }
}

/// The dump as text: `key = value`, one field per line.
pub open spec fn spec_text(fields: Seq<FieldView>) -> Seq<char>
    decreases fields.len(),
{
    if fields.len() == 0 {
        Seq::empty()
    } else {
        spec_text(fields.drop_last()) + fields.last().0 + seq![' ', '=', ' '] + fields.last().1 + seq!['\n']
    }
}

proof fn lemma_find_key(fields: Seq<FieldView>, key: Seq<char>)
    ensures
        0 <= find_key(fields, key) <= fields.len(),
        find_key(fields, key) < fields.len() ==> fields[find_key(fields, key)].0 == key,
        forall|i: int| 0 <= i < find_key(fields, key) ==> fields[i].0 != key,
    decreases fields.len(),
{
    if fields.len() > 0 && fields[0].0 != key {
        let t = fields.drop_first();
        lemma_find_key(t, key);
        assert forall|i: int| 0 <= i < find_key(fields, key) implies fields[i].0 != key by {
            if i > 0 {
                assert(fields[i] == t[i - 1]);
            }
        }
    }
}

impl Dump {
    /// No fields yet.
    pub fn new() -> (d: Dump)
        ensures
            d@ == Seq::<FieldView>::empty(),
    {
        let d = Dump { fields: Vec::new() };
        assert(d@ =~= Seq::<FieldView>::empty());
        d
    }

    /// Add a field.
    pub fn push(&mut self, key: Vec<char>, value: String, class: Class)
        ensures
            final(self)@ == old(self)@.push((key@, value@, class)),
    {
        let f = Field { key: string_of(key.as_slice()), value, class };
        self.fields.push(f);
        assert(self@ =~= old(self)@.push((key@, value@, class)));
    }

    /// Look a field up by key: the first with it.
    pub fn get(&self, key: &str) -> (r: Option<&str>)
        ensures
            match r {
                Some(v) => find_key(self@, key@) < self@.len() && v@ == self@[find_key(self@, key@)].1,
                None => find_key(self@, key@) == self@.len(),
            },
    {
        proof {
            lemma_find_key(self@, key@);
        }
        let want = chars_of(key);
        let mut i: usize = 0;
        while i < self.fields.len()
            invariant
                i <= self.fields@.len(),
                want@ == key@,
                self@.len() == self.fields@.len(),
                forall|j: int| 0 <= j < i ==> self@[j].0 != key@,
                0 <= find_key(self@, key@) <= self@.len(),
                find_key(self@, key@) < self@.len() ==> self@[find_key(self@, key@)].0 == key@,
                forall|j: int| 0 <= j < find_key(self@, key@) ==> self@[j].0 != key@,
            decreases self.fields@.len() - i,
        {
            let k = chars_of(self.fields[i].key.as_str());
            if same_chars(&k, &want) {
                assert(self@[i as int].0 == key@);
                assert(find_key(self@, key@) == i);
                return Some(self.fields[i].value.as_str());
            }
            i += 1;
        }
        None
    }

    /// Render one field per line, `key = value`.
    pub fn to_text(&self) -> (s: String)
        ensures
            s@ == spec_text(self@),
    {
        let mut out: Vec<char> = Vec::new();
        let mut i: usize = 0;
        while i < self.fields.len()
            invariant
                i <= self.fields@.len(),
                self@.len() == self.fields@.len(),
                out@ == spec_text(self@.subrange(0, i as int)),
            decreases self.fields@.len() - i,
        {
            let k = chars_of(self.fields[i].key.as_str());
            let v = chars_of(self.fields[i].value.as_str());
            append(&mut out, k.as_slice());
            out.push(' ');
            out.push('=');
            out.push(' ');
            append(&mut out, v.as_slice());
            out.push('\n');
            i += 1;
            assert(self@.subrange(0, i as int).drop_last() =~= self@.subrange(0, i - 1));
            assert(out@ =~= spec_text(self@.subrange(0, i as int)));
        }
        assert(self@.subrange(0, self@.len() as int) =~= self@);
        string_of(out.as_slice())
    }
}

/// Whether two lists of characters are the same.
pub fn same_chars(a: &Vec<char>, b: &Vec<char>) -> (r: bool)
    ensures
        r == (a@ == b@),
{
    if a.len() != b.len() {
        return false;
    }
    let mut i: usize = 0;
    while i < a.len()
        invariant
            a@.len() == b@.len(),
            i <= a@.len(),
            forall|j: int| 0 <= j < i ==> a@[j] == b@[j],
        decreases a@.len() - i,
    {
        if a[i] != b[i] {
            return false;
        }
        i += 1;
    }
    assert(a@ =~= b@);
    true
}

/// The superblock fields a reader needs to find everything else.
#[derive(Debug, Clone, Copy)]
pub struct Geo {
    /// Block size.
    pub blocksize: u64,
    /// log2 block size.
    pub blocklog: u32,
    /// Sector size.
    pub sectsize: u64,
    /// Blocks per AG.
    pub agblocks: u64,
    /// AG count.
    pub agcount: u64,
    /// Data blocks.
    pub dblocks: u64,
    /// log2 of agblocks, rounded up.
    pub agblklog: u32,
    /// Inode size.
    pub inodesize: u64,
    /// log2 inodes per block.
    pub inopblog: u32,
    /// Log start (encoded filesystem block).
    pub logstart: u64,
    /// Log length in blocks.
    pub logblocks: u64,
    /// Log sector size (0 for 512).
    pub logsectsize: u64,
    /// ro-compat features.
    pub ro_compat: u32,
    /// incompat features.
    pub incompat: u32,
}

/// The geometry fields of the superblock `b`.
pub open spec fn geo_fields(b: Seq<u8>) -> Geo {
    Geo {
        blocksize: spec_be32(b, sbo::BLOCKSIZE as int) as u64,
        blocklog: b[sbo::BLOCKLOG as int] as u32,
        sectsize: spec_be16(b, sbo::SECTSIZE as int) as u64,
        agblocks: spec_be32(b, sbo::AGBLOCKS as int) as u64,
        agcount: spec_be32(b, sbo::AGCOUNT as int) as u64,
        dblocks: spec_be64(b, sbo::DBLOCKS as int),
        agblklog: b[sbo::AGBLKLOG as int] as u32,
        inodesize: spec_be16(b, sbo::INODESIZE as int) as u64,
        inopblog: b[sbo::INOPBLOG as int] as u32,
        logstart: spec_be64(b, sbo::LOGSTART as int),
        logblocks: spec_be32(b, sbo::LOGBLOCKS as int) as u64,
        logsectsize: spec_be16(b, sbo::LOGSECTSIZE as int) as u64,
        ro_compat: spec_be32(b, sbo::FEATURES_RO_COMPAT as int),
        incompat: spec_be32(b, sbo::FEATURES_INCOMPAT as int),
    }
}

/// The block, sector and inode sizes are sane and agree with their logs.
pub open spec fn sizes_ok(g: Geo) -> bool {
    &&& power_of_two(g.blocksize as int)
    &&& 512 <= g.blocksize <= 65536
    &&& g.blocklog < 64 && pow2(g.blocklog as nat) == g.blocksize
    &&& power_of_two(g.sectsize as int)
    &&& 512 <= g.sectsize <= 32768
    &&& g.sectsize <= g.blocksize
    &&& power_of_two(g.inodesize as int)
    &&& 256 <= g.inodesize <= 2048
}

/// The superblock geometry a reader can trust.
pub open spec fn geo_ok(g: Geo) -> bool {
    &&& sizes_ok(g)
    &&& g.agcount > 0
    &&& g.agblocks > 0
    &&& g.agblklog < 64 && g.agblocks <= pow2(g.agblklog as nat)
    &&& g.agblklog < 32
    &&& g.dblocks <= g.agcount * g.agblocks
}

/// `b` starts with the superblock magic.
pub open spec fn has_sb_magic(b: Seq<u8>) -> bool {
    spec_be32(b, sbo::MAGICNUM as int) == sb::MAGIC
}

/// `b`'s superblock is version 5 (CRC-enabled).
pub open spec fn is_v5(b: Seq<u8>) -> bool {
    spec_be16(b, sbo::VERSIONNUM as int) & 0xf == 5
}

/// Bytes of a superblock [`Geo::parse`] reads: through its feature words.
pub const GEO_BYTES: usize = 220;

impl Geo {
    /// Read the geometry from a primary superblock: not XFS without the
    /// magic or with a version other than 5, corrupt where the geometry
    /// does not hold together.
    pub fn parse(b: &[u8]) -> (r: Result<Geo, Error>)
        requires
            b@.len() >= GEO_BYTES,
        ensures
            match r {
                Ok(g) => has_sb_magic(b@) && is_v5(b@) && geo_ok(g) && g == geo_fields(b@),
                Err(e) => if !has_sb_magic(b@) || !is_v5(b@) {
                    e is NotXfs
                } else {
                    !geo_ok(geo_fields(b@)) && e is Corrupt
                },
            },
    {
        if be32(b, sbo::MAGICNUM) != sb::MAGIC {
            return Err(Error::NotXfs(string_of(chars_of("no XFSB magic at byte 0").as_slice())));
        }
        if be16(b, sbo::VERSIONNUM) & 0xf != 5 {
            return Err(Error::NotXfs(string_of(chars_of("not a v5 (CRC) superblock").as_slice())));
        }
        let g = Geo::fields(b);
        assert(g == geo_fields(b@));
        if g.is_ok() {
            Ok(g)
        } else {
            Err(Error::Corrupt(string_of(chars_of("superblock geometry").as_slice())))
        }
    }

    /// The geometry fields of the superblock `b`, unchecked.
    fn fields(b: &[u8]) -> (g: Geo)
        requires
            b@.len() >= GEO_BYTES,
        ensures
            g == geo_fields(b@),
    {
        Geo {
            blocksize: be32(b, sbo::BLOCKSIZE) as u64,
            blocklog: b[sbo::BLOCKLOG] as u32,
            sectsize: be16(b, sbo::SECTSIZE) as u64,
            agblocks: be32(b, sbo::AGBLOCKS) as u64,
            agcount: be32(b, sbo::AGCOUNT) as u64,
            dblocks: be64(b, sbo::DBLOCKS),
            agblklog: b[sbo::AGBLKLOG] as u32,
            inodesize: be16(b, sbo::INODESIZE) as u64,
            inopblog: b[sbo::INOPBLOG] as u32,
            logstart: be64(b, sbo::LOGSTART),
            logblocks: be32(b, sbo::LOGBLOCKS) as u64,
            logsectsize: be16(b, sbo::LOGSECTSIZE) as u64,
            ro_compat: be32(b, sbo::FEATURES_RO_COMPAT),
            incompat: be32(b, sbo::FEATURES_INCOMPAT),
        }
    }

    /// The checks of [`geo_ok`], in the order a superblock is read.
    fn is_ok(&self) -> (r: bool)
        requires
            self.blocksize <= u32::MAX,
            self.sectsize <= u32::MAX,
            self.inodesize <= u32::MAX,
            self.agcount <= u32::MAX,
            self.agblocks <= u32::MAX,
        ensures
            r == geo_ok(*self),
    {
        if !(is_power_of_two(self.blocksize as u32) && 512 <= self.blocksize && self.blocksize <= 65536) {
            return false;
        }
        if self.blocklog >= 32 {
            proof {
                vstd::arithmetic::power2::lemma2_to64();
                vstd::arithmetic::power2::lemma_pow2_strictly_increases(17, self.blocklog as nat);
            }
            return false;
        }
        proof {
            vstd::bits::lemma_u64_pow2_no_overflow(self.blocklog as nat);
            vstd::bits::lemma_u64_shl_is_mul(1, self.blocklog as u64);
        }
        if (1u64 << (self.blocklog as u64)) != self.blocksize {
            return false;
        }
        if !(is_power_of_two(self.sectsize as u32) && 512 <= self.sectsize && self.sectsize <= 32768
            && self.sectsize <= self.blocksize) {
            return false;
        }
        if !(is_power_of_two(self.inodesize as u32) && 256 <= self.inodesize && self.inodesize <= 2048) {
            return false;
        }
        if !(self.agcount > 0 && self.agblocks > 0) {
            return false;
        }
        if self.agblklog >= 32 {
            return false;
        }
        proof {
            vstd::bits::lemma_u64_pow2_no_overflow(self.agblklog as nat);
            vstd::bits::lemma_u64_shl_is_mul(1, self.agblklog as u64);
        }
        if !(self.agblocks <= (1u64 << (self.agblklog as u64))) {
            return false;
        }
        assert(self.agcount * self.agblocks <= u32::MAX * u32::MAX) by (nonlinear_arith)
            requires
                self.agcount <= u32::MAX,
                self.agblocks <= u32::MAX,
        ;
        self.dblocks <= self.agcount * self.agblocks
    }
}

/// The byte offset of block `agbno` of AG `agno`, as 64-bit arithmetic
/// gives it.
pub open spec fn spec_byte(g: Geo, agno: u64, agbno: u64) -> u64 {
    ((agno * g.agblocks + agbno) as u64) << (g.blocklog as u64)
}

/// The length of AG `agno`: the last AG holds what is left of the data
/// blocks.
pub open spec fn spec_ag_len(g: Geo, agno: u64) -> u64 {
    if agno == g.agcount - 1 {
        (g.dblocks - agno * g.agblocks) as u64
    } else {
        g.agblocks
    }
}

/// A superblock whose AG lengths and log position the reader can compute:
/// the data blocks reach into the last AG, inode numbers and the log's
/// place fit 64 bits, and an inode block holds its inodes.
pub open spec fn readable(g: Geo) -> bool {
    &&& g.agblklog + g.inopblog < 64
    &&& g.inodesize * pow2(g.inopblog as nat) <= g.blocksize
    &&& g.dblocks >= (g.agcount - 1) * g.agblocks
    &&& (g.logstart >> (g.agblklog as u64)) * g.agblocks + (g.logstart & (((1u64 << (g.agblklog as u64)) - 1) as u64)) <= u64::MAX
}

/// Where the log starts, in bytes.
pub open spec fn spec_log_at(g: Geo) -> u64 {
    spec_byte(
        g,
        g.logstart >> (g.agblklog as u64),
        g.logstart & (((1u64 << (g.agblklog as u64)) - 1) as u64),
    )
}

impl Geo {
    /// The byte offset of block `agbno` of AG `agno`.
    pub fn byte(&self, agno: u64, agbno: u64) -> (r: u64)
        requires
            agno * self.agblocks + agbno <= u64::MAX,
            self.blocklog < 64,
        ensures
            r == spec_byte(*self, agno, agbno),
    {
        (agno * self.agblocks + agbno) << (self.blocklog as u64)
    }

    /// The length of AG `agno`.
    pub fn ag_len(&self, agno: u64) -> (r: u64)
        requires
            agno < self.agcount,
            self.dblocks >= (self.agcount - 1) * self.agblocks,
        ensures
            r == spec_ag_len(*self, agno),
    {
        if agno == self.agcount - 1 {
            proof {
                assert(agno * self.agblocks <= self.dblocks);
            }
            self.dblocks - agno * self.agblocks
        } else {
            self.agblocks
        }
    }

    /// Whether the ro-compat feature `ro` is set.
    pub fn has(&self, ro: u32) -> (r: bool)
        ensures
            r == (self.ro_compat & ro != 0),
    {
        self.ro_compat & ro != 0
    }
}

impl Geo {
    /// Whether the reader can take this geometry in hand: see [`readable`].
    pub fn is_readable(&self) -> (r: bool)
        requires
            geo_ok(*self),
        ensures
            r == readable(*self),
    {
        if self.agblklog as u64 + self.inopblog as u64 >= 64 {
            return false;
        }
        proof {
            vstd::bits::lemma_u64_pow2_no_overflow(self.inopblog as nat);
            vstd::bits::lemma_u64_shl_is_mul(1, self.inopblog as u64);
            vstd::bits::lemma_u64_pow2_no_overflow(self.agblklog as nat);
            vstd::bits::lemma_u64_shl_is_mul(1, self.agblklog as u64);
        }
        let per_block = 1u64 << (self.inopblog as u64);
        match self.inodesize.checked_mul(per_block) {
            None => {
                return false;
            },
            Some(n) => if n > self.blocksize {
                return false;
            },
        }
        match (self.agcount - 1).checked_mul(self.agblocks) {
            None => {
                return false;
            },
            Some(n) => if self.dblocks < n {
                return false;
            },
        }
        let k = self.agblklog as u64;
        let log_ag = self.logstart >> k;
        let log_agbno = self.logstart & ((1u64 << k) - 1);
        let base = match log_ag.checked_mul(self.agblocks) {
            None => {
                return false;
            },
            Some(b) => b,
        };
        match base.checked_add(log_agbno) {
            None => false,
            Some(_) => true,
        }
    }
}

} // verus!
