//! The geometry summary `mkfs.xfs` prints, in its layout.
use vstd::prelude::*;
use crate::geometry::Geometry;
use crate::text::{append, chars_of, radix_chars, spec_dec, string_of};

verus! {

/// `s` left-aligned in a field of `w` characters.
pub open spec fn pad(s: Seq<char>, w: nat) -> Seq<char> {
    if s.len() >= w {
        s
    } else {
        s + Seq::new((w - s.len()) as nat, |i: int| ' ')
    }
}

/// `1` or `0`.
pub open spec fn flag(b: bool) -> Seq<char> {
    if b {
        seq!['1']
    } else {
        seq!['0']
    }
}

/// The continuation prefix: an empty name column.
pub open spec fn cont() -> Seq<char> {
    "         ="@ + pad(Seq::empty(), 22)
}

/// The first line: the device, inode size and AG layout.
pub open spec fn line_meta(g: Geometry, name: Seq<char>) -> Seq<char> {
    "meta-data="@ + pad(name, 22) + " isize="@ + pad(spec_dec(g.inodesize as nat), 6) + " agcount="@ + spec_dec(
        g.agcount as nat,
    ) + ", agsize="@ + spec_dec(g.agsize as nat) + " blks\n"@
}

/// The sector size line.
pub open spec fn line_sect(g: Geometry) -> Seq<char> {
    cont() + " sectsz="@ + pad(spec_dec(g.sectsize as nat), 5) + " attr=2, projid32bit=1\n"@
}

/// The first feature line.
pub open spec fn line_crc(g: Geometry) -> Seq<char> {
    let f = g.features;
    cont() + " crc=1        finobt="@ + flag(f.finobt) + ", sparse="@ + flag(f.sparse) + ", rmapbt="@ + flag(f.rmapbt)
        + "\n"@
}

/// The second feature line.
pub open spec fn line_reflink(g: Geometry) -> Seq<char> {
    let f = g.features;
    cont() + " reflink="@ + flag(f.reflink) + "    bigtime="@ + flag(f.bigtime) + " inobtcount="@ + flag(f.inobtcount)
        + " nrext64="@ + flag(f.nrext64) + "\n"@
}

/// The data section line.
pub open spec fn line_data(g: Geometry) -> Seq<char> {
    "data     ="@ + pad(Seq::empty(), 22) + " bsize="@ + pad(spec_dec(g.blocksize as nat), 6) + " blocks="@ + spec_dec(
        g.dblocks as nat,
    ) + ", imaxpct="@ + spec_dec(g.imaxpct as nat) + "\n"@
}

/// The naming (directory) line.
pub open spec fn line_naming(g: Geometry) -> Seq<char> {
    "naming   =version 2              bsize="@ + pad(spec_dec(pow2_u32(g.dirblocklog) as nat), 6)
        + " ascii-ci=0, ftype=1, parent=0\n"@
}

/// The log line.
pub open spec fn line_log(g: Geometry) -> Seq<char> {
    "log      =internal log           bsize="@ + pad(spec_dec(g.blocksize as nat), 6) + " blocks="@ + spec_dec(
        g.logblocks as nat,
    ) + ", version=2\n"@
}

/// The log sector line.
pub open spec fn line_lsect(g: Geometry) -> Seq<char> {
    cont() + " sectsz="@ + pad(spec_dec(g.lsectsize as nat), 5) + " sunit=0 blks, lazy-count=1\n"@
}

/// The summary of `g` for the device `name`, line by line.
pub open spec fn spec_report(g: Geometry, name: Seq<char>) -> Seq<char> {
    line_meta(g, name) + line_sect(g) + line_crc(g) + line_reflink(g) + line_data(g) + line_naming(g) + line_log(g)
        + line_lsect(g)
}

/// `1 << n` as a `u32`.
pub open spec fn pow2_u32(n: u8) -> u32 {
    (1u32 << (n as u32)) as u32
}

fn padded(out: &mut Vec<char>, s: &[char], w: usize)
    ensures
        final(out)@ == old(out)@ + pad(s@, w as nat),
{
    let ghost o = out@;
    append(out, s);
    let mut n = s.len();
    while n < w
        invariant
            s@.len() <= n <= w || (n == s@.len() && n >= w),
            out@ == o + s@ + Seq::new((n - s@.len()) as nat, |i: int| ' '),
        decreases w - n,
    {
        out.push(' ');
        n += 1;
        assert(out@ =~= o + s@ + Seq::new((n - s@.len()) as nat, |i: int| ' '));
    }
    assert(out@ =~= o + pad(s@, w as nat));
}

fn text(out: &mut Vec<char>, s: &str)
    ensures
        final(out)@ == old(out)@ + s@,
{
    append(out, chars_of(s).as_slice());
}

fn number(out: &mut Vec<char>, v: u64)
    ensures
        final(out)@ == old(out)@ + spec_dec(v as nat),
{
    append(out, radix_chars(v, 10).as_slice());
}

fn one(out: &mut Vec<char>, b: bool)
    ensures
        final(out)@ == old(out)@ + flag(b),
{
    out.push(if b {
        '1'
    } else {
        '0'
    });
    assert(final(out)@ =~= old(out)@ + flag(b));
}

fn push_cont(o: &mut Vec<char>)
    ensures
        final(o)@ == old(o)@ + cont(),
{
    let empty: Vec<char> = Vec::new();
    text(o, "         =");
    padded(o, empty.as_slice(), 22);
    assert(empty@ =~= Seq::<char>::empty());
}

fn push_meta(o: &mut Vec<char>, g: &Geometry, name: &str)
    ensures
        final(o)@ == old(o)@ + line_meta(*g, name@),
{
    text(o, "meta-data=");
    padded(o, chars_of(name).as_slice(), 22);
    text(o, " isize=");
    padded(o, radix_chars(g.inodesize as u64, 10).as_slice(), 6);
    text(o, " agcount=");
    number(o, g.agcount);
    text(o, ", agsize=");
    number(o, g.agsize);
    text(o, " blks\n");
}

fn push_sect(o: &mut Vec<char>, g: &Geometry)
    ensures
        final(o)@ == old(o)@ + line_sect(*g),
{
    push_cont(o);
    text(o, " sectsz=");
    padded(o, radix_chars(g.sectsize as u64, 10).as_slice(), 5);
    text(o, " attr=2, projid32bit=1\n");
}

fn push_crc(o: &mut Vec<char>, g: &Geometry)
    ensures
        final(o)@ == old(o)@ + line_crc(*g),
{
    let f = g.features;
    push_cont(o);
    text(o, " crc=1        finobt=");
    one(o, f.finobt);
    text(o, ", sparse=");
    one(o, f.sparse);
    text(o, ", rmapbt=");
    one(o, f.rmapbt);
    text(o, "\n");
}

fn push_reflink(o: &mut Vec<char>, g: &Geometry)
    ensures
        final(o)@ == old(o)@ + line_reflink(*g),
{
    let f = g.features;
    push_cont(o);
    text(o, " reflink=");
    one(o, f.reflink);
    text(o, "    bigtime=");
    one(o, f.bigtime);
    text(o, " inobtcount=");
    one(o, f.inobtcount);
    text(o, " nrext64=");
    one(o, f.nrext64);
    text(o, "\n");
}

fn push_data(o: &mut Vec<char>, g: &Geometry)
    ensures
        final(o)@ == old(o)@ + line_data(*g),
{
    let empty: Vec<char> = Vec::new();
    text(o, "data     =");
    padded(o, empty.as_slice(), 22);
    assert(empty@ =~= Seq::<char>::empty());
    text(o, " bsize=");
    padded(o, radix_chars(g.blocksize as u64, 10).as_slice(), 6);
    text(o, " blocks=");
    number(o, g.dblocks);
    text(o, ", imaxpct=");
    number(o, g.imaxpct as u64);
    text(o, "\n");
}

fn push_naming(o: &mut Vec<char>, g: &Geometry)
    requires
        g.dirblocklog < 32,
    ensures
        final(o)@ == old(o)@ + line_naming(*g),
{
    text(o, "naming   =version 2              bsize=");
    let dirb: u32 = 1u32 << (g.dirblocklog as u32);
    padded(o, radix_chars(dirb as u64, 10).as_slice(), 6);
    text(o, " ascii-ci=0, ftype=1, parent=0\n");
}

fn push_log(o: &mut Vec<char>, g: &Geometry)
    ensures
        final(o)@ == old(o)@ + line_log(*g),
{
    text(o, "log      =internal log           bsize=");
    padded(o, radix_chars(g.blocksize as u64, 10).as_slice(), 6);
    text(o, " blocks=");
    number(o, g.logblocks);
    text(o, ", version=2\n");
}

fn push_lsect(o: &mut Vec<char>, g: &Geometry)
    ensures
        final(o)@ == old(o)@ + line_lsect(*g),
{
    push_cont(o);
    text(o, " sectsz=");
    padded(o, radix_chars(g.lsectsize as u64, 10).as_slice(), 5);
    text(o, " sunit=0 blks, lazy-count=1\n");
}

/// The geometry summary `mkfs.xfs` prints for `g` on the device `name`.
pub fn report(g: &Geometry, name: &str) -> (s: String)
    requires
        g.dirblocklog < 32,
    ensures
        s@ == spec_report(*g, name@),
{
    let mut o: Vec<char> = Vec::new();
    push_meta(&mut o, g, name);
    push_sect(&mut o, g);
    push_crc(&mut o, g);
    push_reflink(&mut o, g);
    push_data(&mut o, g);
    push_naming(&mut o, g);
    push_log(&mut o, g);
    push_lsect(&mut o, g);
    assert(o@ =~= spec_report(*g, name@));
    string_of(o.as_slice())
}

} // verus!
