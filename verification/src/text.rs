//! Text as the command line and the metadata dump see it: characters in,
//! characters out.
use vstd::prelude::*;
use vstd::string::StrSliceExecFns;

verus! {

/// Append `c` (`String::push`).
#[verifier::external_body]
pub(crate) fn push_char(s: &mut String, c: char)
    ensures
        final(s)@ == old(s)@.push(c),
{
    s.push(c);
}

/// The characters of `s`.
pub fn chars_of(s: &str) -> (v: Vec<char>)
    ensures
        v@ == s@,
{
    let n = s.unicode_len();
    let mut v: Vec<char> = Vec::new();
    let mut i: usize = 0;
    while i < n
        invariant
            i <= n,
            n == s@.len(),
            v@ == s@.subrange(0, i as int),
        decreases n - i,
    {
        v.push(s.get_char(i));
        i += 1;
        assert(v@ =~= s@.subrange(0, i as int));
    }
    assert(s@.subrange(0, n as int) =~= s@);
    v
}

/// The string holding `v`.
pub fn string_of(v: &[char]) -> (s: String)
    ensures
        s@ == v@,
{
    let mut s = String::new();
    let mut i: usize = 0;
    while i < v.len()
        invariant
            i <= v@.len(),
            s@ == v@.subrange(0, i as int),
        decreases v@.len() - i,
    {
        push_char(&mut s, v[i]);
        i += 1;
        assert(s@ =~= v@.subrange(0, i as int));
    }
    assert(v@.subrange(0, v@.len() as int) =~= v@);
    s
}

/// The digit `d` (below 16) as a character, lower-case past 9.
pub open spec fn digit(d: nat) -> char {
    if d < 10 {
        (48 + d) as char
    } else {
        (87 + d) as char
    }
}

/// `v` in base `base`, most significant digit first, no leading zeros.
pub open spec fn radix(v: nat, base: nat) -> Seq<char>
    decreases v,
{
    if base < 2 || v < base {
        seq![digit(v)]
    } else {
        proof {
            vstd::arithmetic::div_mod::lemma_div_decreases(v as int, base as int);
        }
        radix(v / base, base).push(digit(v % base))
    }
}

/// `v` in decimal (`{}`).
pub open spec fn spec_dec(v: nat) -> Seq<char> {
    radix(v, 10)
}

/// `s` left-padded with zeros to `width` characters.
pub open spec fn zero_pad(s: Seq<char>, width: nat) -> Seq<char> {
    if s.len() >= width {
        s
    } else {
        Seq::new((width - s.len()) as nat, |i: int| '0') + s
    }
}

fn digit_char(d: u64) -> (c: char)
    requires
        d < 16,
    ensures
        c == digit(d as nat),
{
    if d < 10 {
        ((48 + d) as u8) as char
    } else {
        ((87 + d) as u8) as char
    }
}

/// The digits of `v` in base `base` (2 to 16).
pub fn radix_chars(v: u64, base: u64) -> (r: Vec<char>)
    requires
        2 <= base <= 16,
    ensures
        r@ == radix(v as nat, base as nat),
{
    let mut rev: Vec<char> = Vec::new();
    let mut x = v;
    while x >= base
        invariant
            2 <= base <= 16,
            radix(v as nat, base as nat) == radix(x as nat, base as nat) + rev@.reverse(),
        decreases x,
    {
        rev.push(digit_char(x % base));
        x = x / base;
    }
    let mut r: Vec<char> = Vec::new();
    r.push(digit_char(x));
    let mut i = rev.len();
    while i > 0
        invariant
            i <= rev@.len(),
            radix(v as nat, base as nat) == seq![digit(x as nat)] + rev@.reverse(),
            r@ == seq![digit(x as nat)] + rev@.reverse().subrange(0, (rev@.len() - i) as int),
        decreases i,
    {
        i -= 1;
        r.push(rev[i]);
        assert(r@ =~= seq![digit(x as nat)] + rev@.reverse().subrange(0, (rev@.len() - i) as int));
    }
    assert(rev@.reverse().subrange(0, rev@.len() as int) =~= rev@.reverse());
    r
}

/// `v` in decimal.
pub fn dec(v: u64) -> (s: String)
    ensures
        s@ == spec_dec(v as nat),
{
    let r = radix_chars(v, 10);
    string_of(r.as_slice())
}

/// `v` in lower-case hexadecimal after `0x` (`{:#x}`).
pub open spec fn spec_hex(v: nat) -> Seq<char> {
    seq!['0', 'x'] + radix(v, 16)
}

/// `v` in lower-case hexadecimal after `0x`.
pub fn hex(v: u64) -> (s: String)
    ensures
        s@ == spec_hex(v as nat),
{
    let mut r: Vec<char> = vec!['0', 'x'];
    let d = radix_chars(v, 16);
    append(&mut r, d.as_slice());
    assert(r@ =~= spec_hex(v as nat));
    string_of(r.as_slice())
}

/// `v` as `0x` and eight hexadecimal digits (`{:#010x}`).
pub open spec fn spec_hex32(v: u32) -> Seq<char> {
    seq!['0', 'x'] + zero_pad(radix(v as nat, 16), 8)
}

/// `v` as `0x` and eight hexadecimal digits.
pub fn hex32(v: u32) -> (s: String)
    ensures
        s@ == spec_hex32(v),
{
    let mut r: Vec<char> = vec!['0', 'x'];
    let d = radix_chars(v as u64, 16);
    let padded = pad_zeros(d.as_slice(), 8);
    append(&mut r, padded.as_slice());
    assert(r@ =~= spec_hex32(v));
    string_of(r.as_slice())
}

/// `v` in octal (`{:o}`).
pub fn oct(v: u64) -> (s: String)
    ensures
        s@ == radix(v as nat, 8),
{
    let r = radix_chars(v, 8);
    string_of(r.as_slice())
}

/// Append the characters of `src`.
pub fn append(dst: &mut Vec<char>, src: &[char])
    ensures
        final(dst)@ == old(dst)@ + src@,
{
    let ghost d0 = dst@;
    let mut i: usize = 0;
    while i < src.len()
        invariant
            i <= src@.len(),
            dst@ == d0 + src@.subrange(0, i as int),
        decreases src@.len() - i,
    {
        dst.push(src[i]);
        i += 1;
        assert(dst@ =~= d0 + src@.subrange(0, i as int));
    }
    assert(src@.subrange(0, src@.len() as int) =~= src@);
}

/// `s` left-padded with zeros to `width` characters.
pub fn pad_zeros(s: &[char], width: usize) -> (r: Vec<char>)
    ensures
        r@ == zero_pad(s@, width as nat),
{
    let mut r: Vec<char> = Vec::new();
    if s.len() < width {
        let mut i: usize = 0;
        while i < width - s.len()
            invariant
                s@.len() < width,
                i <= width - s@.len(),
                r@ == Seq::new(i as nat, |j: int| '0'),
            decreases width - s@.len() - i,
        {
            r.push('0');
            i += 1;
            assert(r@ =~= Seq::new(i as nat, |j: int| '0'));
        }
    }
    append(&mut r, s);
    assert(r@ =~= zero_pad(s@, width as nat));
    r
}

/// The two hexadecimal digits of each byte, one after another.
pub open spec fn spec_hex_bytes(b: Seq<u8>) -> Seq<char>
    decreases b.len(),
{
    if b.len() == 0 {
        Seq::empty()
    } else {
        spec_hex_bytes(b.drop_last()) + zero_pad(radix(b.last() as nat, 16), 2)
    }
}

/// Each byte as two hexadecimal digits.
pub fn hex_bytes(b: &[u8]) -> (r: Vec<char>)
    ensures
        r@ == spec_hex_bytes(b@),
{
    let mut r: Vec<char> = Vec::new();
    let mut i: usize = 0;
    while i < b.len()
        invariant
            i <= b@.len(),
            r@ == spec_hex_bytes(b@.subrange(0, i as int)),
        decreases b@.len() - i,
    {
        let d = radix_chars(b[i] as u64, 16);
        let two = pad_zeros(d.as_slice(), 2);
        append(&mut r, two.as_slice());
        i += 1;
        assert(b@.subrange(0, i as int).drop_last() =~= b@.subrange(0, i - 1));
    }
    assert(b@.subrange(0, b@.len() as int) =~= b@);
    r
}

/// The length of `b` without its trailing zero bytes.
pub open spec fn trimmed_len(b: Seq<u8>) -> int
    decreases b.len(),
{
    if b.len() == 0 {
        0
    } else if b.last() != 0 {
        b.len() as int
    } else {
        trimmed_len(b.drop_last())
    }
}

/// `b` in hexadecimal up to its last non-zero byte.
pub open spec fn spec_hex_trimmed(b: Seq<u8>) -> Seq<char> {
    spec_hex_bytes(b.subrange(0, trimmed_len(b)))
}

proof fn lemma_trimmed_len(b: Seq<u8>)
    ensures
        0 <= trimmed_len(b) <= b.len(),
    decreases b.len(),
{
    if b.len() > 0 && b.last() == 0 {
        lemma_trimmed_len(b.drop_last());
    }
}

/// `b` in hexadecimal up to its last non-zero byte.
pub fn hex_trimmed(b: &[u8]) -> (s: String)
    ensures
        s@ == spec_hex_trimmed(b@),
{
    let mut end = b.len();
    assert(b@.subrange(0, end as int) =~= b@);
    while end > 0 && b[end - 1] == 0
        invariant
            end <= b@.len(),
            trimmed_len(b@) == trimmed_len(b@.subrange(0, end as int)),
        decreases end,
    {
        proof {
            assert(b@.subrange(0, end as int).drop_last() =~= b@.subrange(0, end - 1));
        }
        end -= 1;
    }
    assert(trimmed_len(b@.subrange(0, end as int)) == end);
    let mut kept: Vec<u8> = Vec::new();
    let mut i: usize = 0;
    while i < end
        invariant
            i <= end <= b@.len(),
            kept@ == b@.subrange(0, i as int),
        decreases end - i,
    {
        kept.push(b[i]);
        i += 1;
        assert(kept@ =~= b@.subrange(0, i as int));
    }
    let r = hex_bytes(kept.as_slice());
    string_of(r.as_slice())
}

/// The sixteen bytes of a UUID as text: `8-4-4-4-12` hexadecimal digits.
pub open spec fn spec_uuid_str(b: Seq<u8>) -> Seq<char> {
    let h = spec_hex_bytes(b);
    h.subrange(0, 8) + seq!['-'] + h.subrange(8, 12) + seq!['-'] + h.subrange(12, 16) + seq!['-']
        + h.subrange(16, 20) + seq!['-'] + h.subrange(20, 32)
}

proof fn lemma_hex_bytes_len(b: Seq<u8>)
    ensures
        spec_hex_bytes(b).len() == 2 * b.len(),
    decreases b.len(),
{
    if b.len() > 0 {
        lemma_hex_bytes_len(b.drop_last());
        let d = radix(b.last() as nat, 16);
        assert(d.len() <= 2) by {
            if b.last() >= 16 {
                assert(radix((b.last() / 16) as nat, 16).len() == 1);
            }
        }
    }
}

/// A UUID as text.
pub fn uuid_str(b: &[u8]) -> (s: String)
    requires
        b@.len() == 16,
    ensures
        s@ == spec_uuid_str(b@),
{
    let h = hex_bytes(b);
    proof {
        lemma_hex_bytes_len(b@);
    }
    let mut r: Vec<char> = Vec::new();
    append_range(&mut r, h.as_slice(), 0, 8);
    r.push('-');
    append_range(&mut r, h.as_slice(), 8, 12);
    r.push('-');
    append_range(&mut r, h.as_slice(), 12, 16);
    r.push('-');
    append_range(&mut r, h.as_slice(), 16, 20);
    r.push('-');
    append_range(&mut r, h.as_slice(), 20, 32);
    assert(r@ =~= spec_uuid_str(b@));
    string_of(r.as_slice())
}

/// Append `src[from..to]`.
pub fn append_range(dst: &mut Vec<char>, src: &[char], from: usize, to: usize)
    requires
        from <= to <= src@.len(),
    ensures
        final(dst)@ == old(dst)@ + src@.subrange(from as int, to as int),
{
    let ghost d0 = dst@;
    let mut i: usize = from;
    while i < to
        invariant
            from <= i <= to <= src@.len(),
            dst@ == d0 + src@.subrange(from as int, i as int),
        decreases to - i,
    {
        dst.push(src[i]);
        i += 1;
        assert(dst@ =~= d0 + src@.subrange(from as int, i as int));
    }
}

/// `true` or `false`.
pub open spec fn spec_bool_text(b: bool) -> Seq<char> {
    if b {
        seq!['t', 'r', 'u', 'e']
    } else {
        seq!['f', 'a', 'l', 's', 'e']
    }
}

/// `true` or `false`.
pub fn bool_text(b: bool) -> (s: String)
    ensures
        s@ == spec_bool_text(b),
{
    let v = if b {
        vec!['t', 'r', 'u', 'e']
    } else {
        vec!['f', 'a', 'l', 's', 'e']
    };
    assert(v@ =~= spec_bool_text(b));
    string_of(v.as_slice())
}

} // verus!
