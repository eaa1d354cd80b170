//! How on-disk fields become the text of a dump: a field is a name and a
//! [`Render`], which says where its bytes are and how they are shown.
use vstd::prelude::*;
use crate::bytes::{be16, be32, be64, le32, spec_be16, spec_be32, spec_be64, spec_le32, copy_range};
use crate::crc::{verifies, verify};
use crate::geometry::Timestamp;
use crate::inspect::{Class, Dump, FieldView};
use crate::structs::inode::{decode_time, spec_decode_time, DIFLAG2_BIGTIME};
use crate::structs::inode::off as ino;
use crate::structs::NULL32;
use crate::text::{
    append, bool_text, chars_of, dec, hex, hex32, hex_bytes, hex_trimmed, oct, pad_zeros,
    radix, radix_chars, spec_bool_text, spec_dec, spec_hex, spec_hex32, spec_hex_bytes,
    spec_hex_trimmed, spec_uuid_str, string_of, uuid_str, zero_pad,
};

verus! {

/// Where a field's bytes are and how they are shown.
#[derive(Debug, Clone, Copy)]
pub enum Render {
    /// The big-endian number of the given width in bytes at the offset, in decimal.
    Dec(usize, usize),
    /// The same, in hexadecimal with a `0x` prefix.
    Hex(usize, usize),
    /// The sixteen bytes at the offset, as a UUID.
    Uuid(usize),
    /// The bytes in the range, in hexadecimal up to the last non-zero one.
    Trim(usize, usize),
    /// The bytes in the range, in hexadecimal.
    Full(usize, usize),
    /// The little-endian CRC at the offset, as eight hexadecimal digits.
    Crc(usize),
    /// Whether the CRC at the offset verifies over the whole buffer.
    CrcOk(usize),
    /// The big-endian `u16` at the offset, in octal.
    Oct(usize),
    /// An inode generation: the big-endian `u32` at the offset, in decimal.
    Gen(usize),
    /// An inode timestamp at the offset, in the encoding the inode's flags choose.
    Time(usize),
    /// An inode's project ID, from its high and low halves.
    Projid,
    /// The AGI unlinked buckets from the offset that are set, comma-separated.
    Unlinked(usize),
    /// The AGFL slots from the offset that are set, as `slot:block`, comma-separated.
    Agfl(usize),
}

/// The big-endian number of width `w` at `off`.
pub open spec fn spec_num(b: Seq<u8>, off: int, w: int) -> nat {
    if w == 1 {
        b[off] as nat
    } else if w == 2 {
        spec_be16(b, off) as nat
    } else if w == 4 {
        spec_be32(b, off) as nat
    } else {
        spec_be64(b, off) as nat
    }
}

/// A signed number in decimal.
pub open spec fn spec_idec(v: int) -> Seq<char> {
    if v < 0 {
        seq!['-'] + spec_dec((-v) as nat)
    } else {
        spec_dec(v as nat)
    }
}

/// A time as seconds, a dot, and nine digits of nanoseconds.
pub open spec fn time_text(t: Timestamp) -> Seq<char> {
    spec_idec(t.secs as int) + seq!['.'] + zero_pad(spec_dec(t.nsecs as nat), 9)
}

/// The items joined with commas.
pub open spec fn join(items: Seq<Seq<char>>) -> Seq<char>
    decreases items.len(),
{
    if items.len() == 0 {
        Seq::empty()
    } else if items.len() == 1 {
        items[0]
    } else {
        join(items.drop_last()) + seq![','] + items.last()
    }
}

/// The first `n` big-endian `u32`s from `off` that are not null, in decimal.
pub open spec fn set_slots(b: Seq<u8>, off: int, n: nat) -> Seq<Seq<char>>
    decreases n,
{
    if n == 0 {
        Seq::empty()
    } else {
        let prev = set_slots(b, off, (n - 1) as nat);
        let v = spec_be32(b, off + 4 * (n - 1));
        if v == NULL32 {
            prev
        } else {
            prev.push(spec_dec(v as nat))
        }
    }
}

/// The first `n` AGFL slots from `off` that are set, as `slot:block`.
pub open spec fn agfl_slots(b: Seq<u8>, off: int, n: nat) -> Seq<Seq<char>>
    decreases n,
{
    if n == 0 {
        Seq::empty()
    } else {
        let prev = agfl_slots(b, off, (n - 1) as nat);
        let v = spec_be32(b, off + 4 * (n - 1));
        if v == NULL32 {
            prev
        } else {
            prev.push(spec_dec((n - 1) as nat) + seq![':'] + spec_dec(v as nat))
        }
    }
}

/// Whether an inode's timestamps are in the bigtime encoding.
pub open spec fn inode_bigtime(b: Seq<u8>) -> bool {
    spec_be64(b, ino::FLAGS2 as int) & DIFLAG2_BIGTIME != 0
}

/// A field's text.
pub open spec fn spec_render(b: Seq<u8>, r: Render) -> Seq<char> {
    match r {
        Render::Dec(o, w) => spec_dec(spec_num(b, o as int, w as int)),
        Render::Hex(o, w) => spec_hex(spec_num(b, o as int, w as int)),
        Render::Uuid(o) => spec_uuid_str(b.subrange(o as int, o + 16)),
        Render::Trim(f, t) => spec_hex_trimmed(b.subrange(f as int, t as int)),
        Render::Full(f, t) => spec_hex_bytes(b.subrange(f as int, t as int)),
        Render::Crc(o) => spec_hex32(spec_le32(b, o as int)),
        Render::CrcOk(o) => spec_bool_text(verifies(b, o as int)),
        Render::Oct(o) => radix(spec_be16(b, o as int) as nat, 8),
        Render::Gen(o) => spec_dec(spec_be32(b, o as int) as nat),
        Render::Time(o) => time_text(spec_decode_time(spec_be64(b, o as int), inode_bigtime(b))),
        Render::Projid => spec_dec(
            spec_be16(b, ino::PROJID_HI as int) as nat * 65536 + spec_be16(b, ino::PROJID_LO as int) as nat,
        ),
        Render::Unlinked(o) => join(set_slots(b, o as int, 64)),
        Render::Agfl(o) => join(agfl_slots(b, o as int, ((b.len() - o) / 4) as nat)),
    }
}

/// How a difference in a field is judged: the UUID is identity; clock,
/// random and checksum values are incidental; all else is substantive.
pub open spec fn render_class(r: Render) -> Class {
    match r {
        Render::Uuid(_) => Class::Identity,
        Render::Crc(_) => Class::Incidental,
        Render::Gen(_) => Class::Incidental,
        Render::Time(_) => Class::Incidental,
        _ => Class::Substantive,
    }
}

/// The field's bytes lie within a buffer of `len` bytes.
pub open spec fn fits(len: nat, r: Render) -> bool {
    match r {
        Render::Dec(o, w) => (w == 1 || w == 2 || w == 4 || w == 8) && o + w <= len,
        Render::Hex(o, w) => (w == 1 || w == 2 || w == 4 || w == 8) && o + w <= len,
        Render::Uuid(o) => o + 16 <= len,
        Render::Trim(f, t) => f <= t <= len,
        Render::Full(f, t) => f <= t <= len,
        Render::Crc(o) => o + 4 <= len,
        Render::CrcOk(_) => true,
        Render::Oct(o) => o + 2 <= len,
        Render::Gen(o) => o + 4 <= len,
        Render::Time(o) => o + 8 <= len && ino::FLAGS2 + 8 <= len,
        Render::Projid => ino::PROJID_HI + 2 <= len,
        Render::Unlinked(o) => o + 256 <= len,
        Render::Agfl(o) => o <= len,
    }
}

fn num(b: &[u8], off: usize, w: usize) -> (r: u64)
    requires
        w == 1 || w == 2 || w == 4 || w == 8,
        off + w <= b@.len(),
    ensures
        r == spec_num(b@, off as int, w as int),
{
    if w == 1 {
        b[off] as u64
    } else if w == 2 {
        be16(b, off) as u64
    } else if w == 4 {
        be32(b, off) as u64
    } else {
        be64(b, off)
    }
}

fn idec(v: i64) -> (r: Vec<char>)
    ensures
        r@ == spec_idec(v as int),
{
    if v < 0 {
        let m: u64 = (-(v as i128)) as u64;
        let mut r: Vec<char> = vec!['-'];
        let d = radix_chars(m, 10);
        append(&mut r, d.as_slice());
        r
    } else {
        radix_chars(v as u64, 10)
    }
}

fn time_chars(t: Timestamp) -> (r: Vec<char>)
    ensures
        r@ == time_text(t),
{
    let mut r = idec(t.secs);
    r.push('.');
    let n = radix_chars(t.nsecs as u64, 10);
    let padded = pad_zeros(n.as_slice(), 9);
    append(&mut r, padded.as_slice());
    r
}

proof fn lemma_join_push(items: Seq<Seq<char>>, x: Seq<char>)
    ensures
        join(items.push(x)) == (if items.len() == 0 { x } else { join(items) + seq![','] + x }),
{
    assert(items.push(x).drop_last() =~= items);
    if items.len() == 0 {
        assert(items.push(x)[0] == x);
    }
}

/// Append `x` to a comma-separated list of `count` items.
fn join_push(out: &mut Vec<char>, count: usize, x: &[char])
    ensures
        final(out)@ == (if count == 0 { x@ } else { old(out)@ + seq![','] + x@ }),
{
    if count == 0 {
        out.clear();
    } else {
        out.push(',');
    }
    append(out, x);
    assert(final(out)@ =~= (if count == 0 { x@ } else { old(out)@ + seq![','] + x@ }));
}

fn unlinked(b: &[u8], off: usize) -> (r: Vec<char>)
    requires
        off + 256 <= b@.len(),
    ensures
        r@ == join(set_slots(b@, off as int, 64)),
{
    let len = b.len();
    let mut out: Vec<char> = Vec::new();
    let mut count: usize = 0;
    let mut i: usize = 0;
    while i < 64
        invariant
            i <= 64,
            len == b@.len(),
            off + 256 <= b@.len(),
            count <= i,
            count == set_slots(b@, off as int, i as nat).len(),
            out@ == join(set_slots(b@, off as int, i as nat)),
        decreases 64 - i,
    {
        let v = be32(b, off + 4 * i);
        if v != NULL32 {
            let d = radix_chars(v as u64, 10);
            proof {
                lemma_join_push(set_slots(b@, off as int, i as nat), d@);
            }
            join_push(&mut out, count, d.as_slice());
            count += 1;
        }
        i += 1;
    }
    out
}

fn agfl_list(b: &[u8], off: usize) -> (r: Vec<char>)
    requires
        off <= b@.len(),
    ensures
        r@ == join(agfl_slots(b@, off as int, ((b@.len() - off) / 4) as nat)),
{
    let len = b.len();
    let n = (len - off) / 4;
    let mut out: Vec<char> = Vec::new();
    let mut count: usize = 0;
    let mut i: usize = 0;
    while i < n
        invariant
            i <= n,
            n == (b@.len() - off) / 4,
            off <= b@.len(),
            len == b@.len(),
            count <= i,
            count == agfl_slots(b@, off as int, i as nat).len(),
            out@ == join(agfl_slots(b@, off as int, i as nat)),
        decreases n - i,
    {
        assert(off + 4 * i + 4 <= b@.len()) by (nonlinear_arith)
            requires
                i < n,
                n == (b@.len() - off) / 4,
                off <= b@.len(),
        ;
        let v = be32(b, off + 4 * i);
        if v != NULL32 {
            let mut item = radix_chars(i as u64, 10);
            item.push(':');
            let d = radix_chars(v as u64, 10);
            append(&mut item, d.as_slice());
            assert(item@ =~= spec_dec(i as nat) + seq![':'] + spec_dec(v as nat));
            proof {
                lemma_join_push(agfl_slots(b@, off as int, i as nat), item@);
            }
            join_push(&mut out, count, item.as_slice());
            count += 1;
        }
        i += 1;
    }
    out
}

/// A field's text.
pub fn render(b: &[u8], r: Render) -> (s: String)
    requires
        fits(b@.len(), r),
    ensures
        s@ == spec_render(b@, r),
{
    match r {
        Render::Dec(o, w) => dec(num(b, o, w)),
        Render::Hex(o, w) => hex(num(b, o, w)),
        Render::Uuid(o) => {
            let len = b.len();
            uuid_str(copy_range(b, o, o + 16).as_slice())
        },
        Render::Trim(f, t) => hex_trimmed(copy_range(b, f, t).as_slice()),
        Render::Full(f, t) => string_of(hex_bytes(copy_range(b, f, t).as_slice()).as_slice()),
        Render::Crc(o) => hex32(le32(b, o)),
        Render::CrcOk(o) => bool_text(verify(b, o)),
        Render::Oct(o) => oct(be16(b, o) as u64),
        Render::Gen(o) => dec(be32(b, o) as u64),
        Render::Time(o) => {
            let bigtime = be64(b, ino::FLAGS2) & DIFLAG2_BIGTIME != 0;
            let t = decode_time(be64(b, o), bigtime);
            string_of(time_chars(t).as_slice())
        },
        Render::Projid => dec(be16(b, ino::PROJID_HI) as u64 * 65536 + be16(b, ino::PROJID_LO) as u64),
        Render::Unlinked(o) => string_of(unlinked(b, o).as_slice()),
        Render::Agfl(o) => string_of(agfl_list(b, o).as_slice()),
    }
}

/// How a difference in a field is judged.
pub fn class_of(r: Render) -> (c: Class)
    ensures
        c == render_class(r),
{
    match r {
        Render::Uuid(_) => Class::Identity,
        Render::Crc(_) => Class::Incidental,
        Render::Gen(_) => Class::Incidental,
        Render::Time(_) => Class::Incidental,
        _ => Class::Substantive,
    }
}

/// A field of a table: its name, and how it is rendered.
pub struct Row {
    /// The name, appended to the structure's prefix after a dot.
    pub name: Vec<char>,
    /// How it is rendered.
    pub render: Render,
}

/// A row as its name's text and its rendering.
pub type RowView = (Seq<char>, Render);

/// The rows as names and renderings.
pub open spec fn rows_view(rows: Seq<Row>) -> Seq<RowView> {
    rows.map_values(|r: Row| (r.name@, r.render))
}

/// A field's key: the prefix, a dot, the name.
pub open spec fn key(p: Seq<char>, name: Seq<char>) -> Seq<char> {
    p + seq!['.'] + name
}

/// The field a row gives under prefix `p` over the bytes `b`.
pub open spec fn row_field(p: Seq<char>, b: Seq<u8>, r: RowView) -> FieldView {
    (key(p, r.0), spec_render(b, r.1), render_class(r.1))
}

/// The fields the rows give, in order.
pub open spec fn rows_fields(p: Seq<char>, b: Seq<u8>, rows: Seq<RowView>) -> Seq<FieldView> {
    rows.map_values(|r: RowView| row_field(p, b, r))
}

/// Every row's bytes lie within a buffer of `len` bytes.
pub open spec fn all_fit(len: nat, rows: Seq<RowView>) -> bool {
    forall|i: int| 0 <= i < rows.len() ==> #[trigger] fits(len, rows[i].1)
}

/// The key `p.name`.
pub fn key_chars(p: &[char], name: &[char]) -> (k: Vec<char>)
    ensures
        k@ == key(p@, name@),
{
    let mut k: Vec<char> = Vec::new();
    append(&mut k, p);
    k.push('.');
    append(&mut k, name);
    assert(k@ =~= key(p@, name@));
    k
}

/// Add the fields of `rows` over `b`, under the prefix `p`.
pub fn push_rows(d: &mut Dump, p: &[char], b: &[u8], rows: &Vec<Row>)
    requires
        all_fit(b@.len(), rows_view(rows@)),
    ensures
        final(d)@ == old(d)@ + rows_fields(p@, b@, rows_view(rows@)),
{
    let ghost d0 = d@;
    let mut i: usize = 0;
    while i < rows.len()
        invariant
            i <= rows@.len(),
            all_fit(b@.len(), rows_view(rows@)),
            d@ == d0 + rows_fields(p@, b@, rows_view(rows@).subrange(0, i as int)),
        decreases rows@.len() - i,
    {
        let r = rows[i].render;
        assert(fits(b@.len(), rows_view(rows@)[i as int].1));
        let k = key_chars(p, rows[i].name.as_slice());
        let v = render(b, r);
        d.push(k, v, class_of(r));
        i += 1;
        assert(rows_view(rows@).subrange(0, i as int) =~= rows_view(rows@).subrange(0, i - 1).push(
            rows_view(rows@)[i - 1],
        ));
        assert(d@ =~= d0 + rows_fields(p@, b@, rows_view(rows@).subrange(0, i as int)));
    }
    assert(rows_view(rows@).subrange(0, rows@.len() as int) =~= rows_view(rows@));
}

/// Append a row.
pub fn add_row(t: &mut Vec<Row>, name: &str, r: Render)
    ensures
        rows_view(final(t)@) == rows_view(old(t)@).push((name@, r)),
{
    t.push(Row { name: chars_of(name), render: r });
    assert(rows_view(final(t)@) =~= rows_view(old(t)@).push((name@, r)));
}

/// Append a row whose name is held as characters.
pub fn add_row_chars(t: &mut Vec<Row>, name: Vec<char>, r: Render)
    ensures
        rows_view(final(t)@) == rows_view(old(t)@).push((name@, r)),
{
    t.push(Row { name, render: r });
    assert(rows_view(final(t)@) =~= rows_view(old(t)@).push((name@, r)));
}

} // verus!
