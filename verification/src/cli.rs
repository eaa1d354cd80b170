//! The command line's option syntax, `mkfs.xfs`'s for the options this
//! crate reproduces: `-b size=N`, `-d size=N,agcount=N,agsize=N`,
//! `-i size=N,maxpct=N,sparse=0|1,nrext64=0|1`,
//! `-m uuid=U,finobt=0|1,rmapbt=0|1,reflink=0|1,inobtcount=0|1,bigtime=0|1`,
//! `-s size=N` and `-L label`.
pub mod report;

use vstd::prelude::*;
use crate::error::Error;
use crate::geometry::{default_features, Features, Params};
use crate::text::{append, chars_of, string_of};

verus! {

/// The options as the command line gave them, each flag's values in order.
#[derive(Debug, Clone)]
pub struct Options {
    /// `-b` values.
    pub block: Vec<String>,
    /// `-d` values.
    pub data: Vec<String>,
    /// `-i` values.
    pub inode: Vec<String>,
    /// `-m` values.
    pub meta: Vec<String>,
    /// `-s` values.
    pub sector: Vec<String>,
    /// `-L`.
    pub label: Option<String>,
}

/// `char::is_whitespace`: Unicode `White_Space`.
pub open spec fn is_space(c: char) -> bool {
    let u = c as u32;
    (9 <= u <= 13) || u == 32 || u == 0x85 || u == 0xa0 || u == 0x1680 || (0x2000 <= u <= 0x200a)
        || u == 0x2028 || u == 0x2029 || u == 0x202f || u == 0x205f || u == 0x3000
}

/// `s` without its leading white space.
pub open spec fn trim_start(s: Seq<char>) -> Seq<char>
    decreases s.len(),
{
    if s.len() > 0 && is_space(s[0]) {
        trim_start(s.drop_first())
    } else {
        s
    }
}

/// `s` without its trailing white space.
pub open spec fn trim_end(s: Seq<char>) -> Seq<char>
    decreases s.len(),
{
    if s.len() > 0 && is_space(s.last()) {
        trim_end(s.drop_last())
    } else {
        s
    }
}

/// `str::trim`.
pub open spec fn trim(s: Seq<char>) -> Seq<char> {
    trim_end(trim_start(s))
}

/// `c` with ASCII upper case lowered.
pub open spec fn lower_char(c: char) -> char {
    if 65 <= c as u32 <= 90 {
        ((c as u32) + 32) as char
    } else {
        c
    }
}

/// `str::to_ascii_lowercase`.
pub open spec fn lower(s: Seq<char>) -> Seq<char> {
    s.map_values(|c: char| lower_char(c))
}

/// `c` is an ASCII digit.
pub open spec fn is_digit(c: char) -> bool {
    48 <= c as u32 <= 57
}

/// The number written by the digits `s`.
pub open spec fn digits_value(s: Seq<char>) -> nat
    decreases s.len(),
{
    if s.len() == 0 {
        0
    } else {
        10 * digits_value(s.drop_last()) + ((s.last() as u32) - 48) as nat
    }
}

/// What `str::parse` gives for an unsigned integer no larger than `max`:
/// an optional `+`, then one or more ASCII digits, the value in range.
pub open spec fn spec_parse_uint(s: Seq<char>, max: nat) -> Option<nat> {
    let d = unsigned_digits(s);
    if d.len() > 0 && all_digits(d) && digits_value(d) <= max {
        Some(digits_value(d))
    } else {
        None
    }
}

/// The digits of an unsigned number: all but a leading `+`.
pub open spec fn unsigned_digits(s: Seq<char>) -> Seq<char> {
    if s.len() >= 2 && s[0] == '+' {
        s.drop_first()
    } else {
        s
    }
}

/// Every character of `d` is an ASCII digit.
pub open spec fn all_digits(d: Seq<char>) -> bool {
    forall|i: int| 0 <= i < d.len() ==> is_digit(#[trigger] d[i])
}

/// The size a trimmed, lowered text names: a number with an optional
/// binary suffix.
pub open spec fn sized(t: Seq<char>) -> Option<u64> {
    let last = if t.len() > 0 { t.last() } else { ' ' };
    let shift: nat = if last == 'k' {
        10
    } else if last == 'm' {
        20
    } else if last == 'g' {
        30
    } else if last == 't' {
        40
    } else if last == 'p' {
        50
    } else {
        0
    };
    let num = if shift > 0 { t.drop_last() } else { t };
    match spec_parse_uint(num, u64::MAX as nat) {
        Some(n) => if n * vstd::arithmetic::power2::pow2(shift) <= u64::MAX {
            Some((n * vstd::arithmetic::power2::pow2(shift)) as u64)
        } else {
            None
        },
        None => None,
    }
}

/// What [`parse_size`] gives: `None` for a malformed or overflowing size.
pub open spec fn spec_parse_size(s: Seq<char>) -> Option<u64> {
    sized(lower(trim(s)))
}

fn space(c: char) -> (r: bool)
    ensures
        r == is_space(c),
{
    let u = c as u32;
    (9 <= u && u <= 13) || u == 32 || u == 0x85 || u == 0xa0 || u == 0x1680 || (0x2000 <= u && u <= 0x200a)
        || u == 0x2028 || u == 0x2029 || u == 0x202f || u == 0x205f || u == 0x3000
}

proof fn lemma_trim_start_skip(s: Seq<char>, i: int)
    requires
        0 <= i < s.len(),
        is_space(s[i]),
    ensures
        trim_start(s.subrange(i, s.len() as int)) == trim_start(s.subrange(i + 1, s.len() as int)),
{
    assert(s.subrange(i, s.len() as int).drop_first() =~= s.subrange(i + 1, s.len() as int));
}

proof fn lemma_trim_end_skip(s: Seq<char>, j: int)
    requires
        0 < j <= s.len(),
        is_space(s[j - 1]),
    ensures
        trim_end(s.subrange(0, j)) == trim_end(s.subrange(0, j - 1)),
{
    assert(s.subrange(0, j).drop_last() =~= s.subrange(0, j - 1));
}

/// `str::trim` on characters.
fn trim_chars(v: &[char]) -> (r: Vec<char>)
    ensures
        r@ == trim(v@),
{
    let n = v.len();
    let mut i: usize = 0;
    assert(v@.subrange(0, n as int) =~= v@);
    while i < n && space(v[i])
        invariant
            i <= n == v@.len(),
            trim_start(v@) == trim_start(v@.subrange(i as int, n as int)),
        decreases n - i,
    {
        proof {
            lemma_trim_start_skip(v@, i as int);
        }
        i += 1;
    }
    let ghost t = v@.subrange(i as int, n as int);
    assert(trim_start(v@) == t);
    let mut j: usize = n;
    assert(t.subrange(0, t.len() as int) =~= t);
    while j > i && space(v[j - 1])
        invariant
            i <= j <= n == v@.len(),
            t == v@.subrange(i as int, n as int),
            trim_end(t) == trim_end(v@.subrange(i as int, j as int)),
        decreases j - i,
    {
        proof {
            let u = v@.subrange(i as int, j as int);
            lemma_trim_end_skip(u, (j - i) as int);
            assert(u.subrange(0, (j - i - 1) as int) =~= v@.subrange(i as int, j - 1));
            assert(u.subrange(0, (j - i) as int) =~= u);
        }
        j -= 1;
    }
    let mut r: Vec<char> = Vec::new();
    let mut k: usize = i;
    while k < j
        invariant
            i <= k <= j <= n == v@.len(),
            r@ == v@.subrange(i as int, k as int),
        decreases j - k,
    {
        r.push(v[k]);
        k += 1;
        assert(r@ =~= v@.subrange(i as int, k as int));
    }
    r
}

/// `str::to_ascii_lowercase` on characters.
fn lower_chars(v: &[char]) -> (r: Vec<char>)
    ensures
        r@ == lower(v@),
{
    let mut r: Vec<char> = Vec::new();
    let mut k: usize = 0;
    while k < v.len()
        invariant
            k <= v@.len(),
            r@ == lower(v@.subrange(0, k as int)),
        decreases v@.len() - k,
    {
        let c = v[k];
        let u = c as u32;
        let l = if 65 <= u && u <= 90 { char_of(u + 32) } else { c };
        r.push(l);
        k += 1;
        assert(r@ =~= lower(v@.subrange(0, k as int)));
    }
    assert(v@.subrange(0, v@.len() as int) =~= v@);
    r
}

/// The ASCII letter or digit with code `u`.
fn char_of(u: u32) -> (c: char)
    requires
        u < 128,
    ensures
        c == u as char,
{
    (u as u8) as char
}

/// `str::parse` for an unsigned integer no larger than `max`.
fn parse_uint(v: &[char], max: u64) -> (r: Option<u64>)
    ensures
        match r {
            Some(n) => spec_parse_uint(v@, max as nat) == Some(n as nat),
            None => spec_parse_uint(v@, max as nat) is None,
        },
{
    let n = v.len();
    let start: usize = if n >= 2 && v[0] == '+' { 1 } else { 0 };
    let ghost d = unsigned_digits(v@);
    assert(d =~= v@.subrange(start as int, n as int));
    if start == n {
        return None;
    }
    let mut acc: u64 = 0;
    let mut k: usize = start;
    while k < n
        invariant
            start <= k <= n == v@.len(),
            start < n,
            d == v@.subrange(start as int, n as int),
            d == unsigned_digits(v@),
            acc <= max,
            forall|i: int| start <= i < k ==> is_digit(#[trigger] v@[i]),
            acc == digits_value(v@.subrange(start as int, k as int)),
        decreases n - k,
    {
        let c = v[k];
        let u = c as u32;
        if !(48 <= u && u <= 57) {
            proof {
                assert(d[k - start] == v@[k as int]);
                assert(!is_digit(d[k - start]));
            }
            return None;
        }
        proof {
            assert(v@.subrange(start as int, k + 1).drop_last() =~= v@.subrange(start as int, k as int));
        }
        let dv = (u - 48) as u64;
        if dv > max || acc > (max - dv) / 10 {
            proof {
                let w = v@.subrange(start as int, k + 1);
                assert(d.subrange(0, k - start + 1) =~= w);
                assert(w.last() == c);
                assert(digits_value(w) == 10 * acc + dv);
                lemma_digits_grow(d, (k - start) as int, max as nat);
            }
            return None;
        }
        acc = acc * 10 + dv;
        k += 1;
    }
    assert(v@.subrange(start as int, n as int) =~= d);
    Some(acc)
}

/// Once the digits read so far exceed `max`, so does the whole number.
proof fn lemma_digits_grow(d: Seq<char>, k: int, max: nat)
    requires
        0 <= k < d.len(),
        forall|i: int| 0 <= i <= k ==> is_digit(#[trigger] d[i]),
        digits_value(d.subrange(0, k + 1)) > max,
    ensures
        !(all_digits(d) && digits_value(d) <= max),
    decreases d.len() - k,
{
    if k + 1 < d.len() && all_digits(d) {
        assert(d.subrange(0, k + 2).drop_last() =~= d.subrange(0, k + 1));
        lemma_digits_grow(d, k + 1, max);
    } else if k + 1 == d.len() {
        assert(d.subrange(0, k + 1) =~= d);
    }
}

/// A message quoting the text it is about.
///
/// Calls `format!`; nothing is stated of the text.
#[verifier::external_body]
fn quoted(prefix: &str, s: &str, suffix: &str) -> String {
    format!("{prefix}{s:?}{suffix}")
}

/// The suffix shift a lowered, trimmed size names: `k` 10 through `p` 50.
fn suffix_shift(last: char) -> (shift: u64)
    ensures
        shift == (if last == 'k' {
            10nat
        } else if last == 'm' {
            20nat
        } else if last == 'g' {
            30nat
        } else if last == 't' {
            40nat
        } else if last == 'p' {
            50nat
        } else {
            0nat
        }),
{
    if last == 'k' {
        10
    } else if last == 'm' {
        20
    } else if last == 'g' {
        30
    } else if last == 't' {
        40
    } else if last == 'p' {
        50
    } else {
        0
    }
}

/// A size with an optional binary suffix: 4096, 64k, 512m, 16g, 2t, 1p.
pub fn parse_size(s: &str) -> (r: Result<u64, Error>)
    ensures
        match r {
            Ok(n) => spec_parse_size(s@) == Some(n),
            Err(e) => spec_parse_size(s@) is None && e is InvalidParams,
        },
{
    let chars = chars_of(s);
    let trimmed = trim_chars(chars.as_slice());
    let t = lower_chars(trimmed.as_slice());
    let n = t.len();
    let last = if n > 0 { t[n - 1] } else { ' ' };
    let shift = suffix_shift(last);
    let mut num: Vec<char> = Vec::new();
    let keep = if shift > 0 { n - 1 } else { n };
    let mut k: usize = 0;
    while k < keep
        invariant
            k <= keep <= n == t@.len(),
            num@ == t@.subrange(0, k as int),
        decreases keep - k,
    {
        num.push(t[k]);
        k += 1;
        assert(num@ =~= t@.subrange(0, k as int));
    }
    assert(num@ == (if shift > 0 { t@.drop_last() } else { t@ }));
    match parse_uint(num.as_slice(), u64::MAX) {
        None => Err(Error::InvalidParams(quoted("bad size ", string_of(t.as_slice()).as_str(), ""))),
        Some(v) => {
            proof {
                vstd::bits::lemma_u64_pow2_no_overflow(shift as nat);
                vstd::bits::lemma_u64_shl_is_mul(1, shift);
            }
            let unit: u64 = 1u64 << shift;
            match v.checked_mul(unit) {
                Some(b) => Ok(b),
                None => Err(Error::InvalidParams(quoted("size ", string_of(t.as_slice()).as_str(), " overflows"))),
            }
        },
    }
}

/// The factor a size suffix stands for, either case: kibi, mebi, gibi,
/// tebi, pebi.
pub open spec fn suffix_unit(c: char) -> Option<nat> {
    if c == 'k' || c == 'K' {
        Some(1024)
    } else if c == 'm' || c == 'M' {
        Some(1048576)
    } else if c == 'g' || c == 'G' {
        Some(1073741824)
    } else if c == 't' || c == 'T' {
        Some(1099511627776)
    } else if c == 'p' || c == 'P' {
        Some(1125899906842624)
    } else {
        None
    }
}

/// A size is its digits' value, times the unit its suffix names: `64k` is
/// 65536 bytes, `2t` two tebibytes. A size that does not fit in 64 bits
/// is refused.
#[verifier::spinoff_prover]
#[verifier::rlimit(40)]
pub proof fn lemma_size_suffix(d: Seq<char>, c: char)
    requires
        d.len() > 0,
        all_digits(d),
        suffix_unit(c) is Some,
    ensures
        spec_parse_size(d.push(c)) == if digits_value(d) * suffix_unit(c).unwrap() <= u64::MAX {
            Some((digits_value(d) * suffix_unit(c).unwrap()) as u64)
        } else {
            None
        },
{
    let s = d.push(c);
    assert(is_digit(d[0]));
    assert(s[0] == d[0]);
    assert(trim_start(s) == s);
    assert(trim_end(s) == s);
    let lc = lower_char(c);
    assert(lower(s) =~= d.push(lc)) by {
        assert forall|i: int| 0 <= i < d.len() implies lower_char(#[trigger] d[i]) == d[i] by {
            assert(is_digit(d[i]));
        }
    }
    let t = d.push(lc);
    assert(t.drop_last() =~= d);
    assert(t.last() == lc);
    assert(unsigned_digits(d) == d);
    vstd::arithmetic::power2::lemma2_to64();
    vstd::arithmetic::power2::lemma2_to64_rest();
    assert(('K' as u32) + 32 == 'k' as u32);
    if c == 'K' { assert(lc == 'k'); }
    if c == 'M' { assert(lc == 'm'); }
    if c == 'G' { assert(lc == 'g'); }
    if c == 'T' { assert(lc == 't'); }
    if c == 'P' { assert(lc == 'p'); }
    if c == 'k' || c == 'm' || c == 'g' || c == 't' || c == 'p' { assert(lc == c); }
    assert(trim(s) == s);
    assert(spec_parse_size(s) == sized(t));
    let shift: nat = if lc == 'k' { 10 } else if lc == 'm' { 20 } else if lc == 'g' { 30 } else if lc == 't' { 40 } else { 50 };
    assert(vstd::arithmetic::power2::pow2(shift) == suffix_unit(c).unwrap()) by {
        if lc == 'k' {
            assert(vstd::arithmetic::power2::pow2(10) == 1024);
        } else if lc == 'm' {
            assert(vstd::arithmetic::power2::pow2(20) == 1048576);
        } else if lc == 'g' {
            assert(vstd::arithmetic::power2::pow2(30) == 1073741824);
        } else if lc == 't' {
            assert(vstd::arithmetic::power2::pow2(40) == 1099511627776);
        } else {
            assert(vstd::arithmetic::power2::pow2(50) == 1125899906842624);
        }
    }
    assert(spec_parse_uint(d, u64::MAX as nat) == if digits_value(d) <= u64::MAX { Some(digits_value(d)) } else { None::<nat> });
    assert(digits_value(d) > u64::MAX ==> digits_value(d) * suffix_unit(c).unwrap() > u64::MAX) by (nonlinear_arith)
        requires suffix_unit(c).unwrap() >= 1;
}

/// A size without a suffix is its digits' value, refused where it does
/// not fit in 64 bits.
#[verifier::spinoff_prover]
pub proof fn lemma_size_plain(d: Seq<char>)
    requires
        d.len() > 0,
        all_digits(d),
    ensures
        spec_parse_size(d) == if digits_value(d) <= u64::MAX { Some(digits_value(d) as u64) } else { None },
{
    assert(is_digit(d[0]));
    assert(is_digit(d.last()));
    assert(trim_start(d) == d);
    assert(trim_end(d) == d);
    assert(lower(d) =~= d) by {
        assert forall|i: int| 0 <= i < d.len() implies lower_char(#[trigger] d[i]) == d[i] by {
            assert(is_digit(d[i]));
        }
    }
    assert(unsigned_digits(d) == d);
    vstd::arithmetic::power2::lemma2_to64();
}

/// `str::parse::<u64>`'s error, as its text, where it refuses `s`.
///
/// Nothing is stated of the text, nor of when it refuses.
#[verifier::external_body]
fn u64_parse_error(s: &str) -> Option<String> {
    match s.parse::<u64>() {
        Ok(_) => None,
        Err(e) => Some(e.to_string()),
    }
}

/// `str::parse::<u8>`'s error, as its text, where it refuses `s`.
///
/// Nothing is stated of the text, nor of when it refuses.
#[verifier::external_body]
fn u8_parse_error(s: &str) -> Option<String> {
    match s.parse::<u8>() {
        Ok(_) => None,
        Err(e) => Some(e.to_string()),
    }
}

/// The message for a number the parser refused: the integer parser's own
/// words, or a note naming the text.
fn number_refusal(parser_says: Option<String>, v: &str) -> String {
    match parser_says {
        Some(m) => m,
        None => quoted("bad number ", v, ""),
    }
}

/// `0` or `1`.
pub open spec fn spec_parse_bool(s: Seq<char>) -> Option<bool> {
    if s == seq!['1'] {
        Some(true)
    } else if s == seq!['0'] {
        Some(false)
    } else {
        None
    }
}

/// `1` is true, `0` false; nothing else is a switch.
pub fn parse_bool(s: &str) -> (r: Result<bool, Error>)
    ensures
        match r {
            Ok(b) => spec_parse_bool(s@) == Some(b),
            Err(e) => spec_parse_bool(s@) is None && e is InvalidParams,
        },
{
    let v = chars_of(s);
    if v.len() == 1 && v[0] == '1' {
        assert(v@ =~= seq!['1']);
        Ok(true)
    } else if v.len() == 1 && v[0] == '0' {
        assert(v@ =~= seq!['0']);
        Ok(false)
    } else {
        Err(Error::InvalidParams(quoted("expected 0 or 1, got ", s, "")))
    }
}

/// `s` split at every comma (`str::split(',')`): one piece more than
/// there are commas.
pub open spec fn pieces(s: Seq<char>) -> Seq<Seq<char>>
    decreases s.len(),
{
    if s.len() == 0 {
        seq![Seq::empty()]
    } else {
        let p = pieces(s.drop_last());
        if s.last() == ',' {
            p.push(Seq::empty())
        } else {
            p.update(p.len() - 1, p.last().push(s.last()))
        }
    }
}

/// Index of the first `=` in `s`, or its length.
pub open spec fn first_eq(s: Seq<char>) -> int
    decreases s.len(),
{
    if s.len() == 0 {
        0
    } else if s[0] == '=' {
        0
    } else {
        1 + first_eq(s.drop_first())
    }
}

/// A sub-option as key and value: `k=v`, or a bare `k` meaning `k=1`.
pub open spec fn key_value(s: Seq<char>) -> (Seq<char>, Seq<char>) {
    let j = first_eq(s);
    if j < s.len() {
        (s.subrange(0, j), s.subrange(j + 1, s.len() as int))
    } else {
        (s, seq!['1'])
    }
}

/// The sub-options of a list of pieces, empty pieces skipped.
pub open spec fn piece_opts(ps: Seq<Seq<char>>) -> Seq<(Seq<char>, Seq<char>)>
    decreases ps.len(),
{
    if ps.len() == 0 {
        Seq::empty()
    } else {
        piece_opts(ps.drop_last()) + (if ps.last().len() > 0 {
            seq![key_value(ps.last())]
        } else {
            Seq::empty()
        })
    }
}

/// Every sub-option of every value, in order.
pub open spec fn spec_subopts(list: Seq<Seq<char>>) -> Seq<(Seq<char>, Seq<char>)>
    decreases list.len(),
{
    if list.len() == 0 {
        Seq::empty()
    } else {
        spec_subopts(list.drop_last()) + piece_opts(pieces(list.last()))
    }
}

/// The texts of a list of strings.
pub open spec fn texts(v: Seq<String>) -> Seq<Seq<char>> {
    v.map_values(|s: String| s@)
}

/// The texts of a list of key and value strings.
pub open spec fn pair_texts(v: Seq<(String, String)>) -> Seq<(Seq<char>, Seq<char>)> {
    v.map_values(|p: (String, String)| (p.0@, p.1@))
}

proof fn lemma_pieces_nonempty(s: Seq<char>)
    ensures
        pieces(s).len() >= 1,
    decreases s.len(),
{
    if s.len() > 0 {
        lemma_pieces_nonempty(s.drop_last());
    }
}

fn key_value_of(s: &Vec<char>) -> (r: (String, String))
    ensures
        (r.0@, r.1@) == key_value(s@),
{
    let n = s.len();
    let mut j: usize = 0;
    assert(s@.subrange(0, n as int) =~= s@);
    while j < n && s[j] != '='
        invariant
            j <= n == s@.len(),
            first_eq(s@) == j + first_eq(s@.subrange(j as int, n as int)),
        decreases n - j,
    {
        proof {
            assert(s@.subrange(j as int, n as int).drop_first() =~= s@.subrange(j + 1, n as int));
        }
        j += 1;
    }
    proof {
        if j < n {
            assert(s@.subrange(j as int, n as int)[0] == '=');
        }
    }
    let mut k: Vec<char> = Vec::new();
    let mut i: usize = 0;
    while i < j
        invariant
            i <= j <= n == s@.len(),
            k@ == s@.subrange(0, i as int),
        decreases j - i,
    {
        k.push(s[i]);
        i += 1;
        assert(k@ =~= s@.subrange(0, i as int));
    }
    if j < n {
        let mut v: Vec<char> = Vec::new();
        let mut i: usize = j + 1;
        while i < n
            invariant
                j + 1 <= i <= n == s@.len(),
                v@ == s@.subrange(j + 1, i as int),
            decreases n - i,
        {
            v.push(s[i]);
            i += 1;
            assert(v@ =~= s@.subrange(j + 1, i as int));
        }
        (string_of(k.as_slice()), string_of(v.as_slice()))
    } else {
        assert(k@ =~= s@);
        let one = vec!['1'];
        assert(one@ =~= seq!['1']);
        (string_of(k.as_slice()), string_of(one.as_slice()))
    }
}

/// Every `k=v` (or bare `k`, meaning `k=1`) of every comma-separated value,
/// in order, empty pieces skipped.
pub fn subopts(list: &[String]) -> (r: Vec<(String, String)>)
    ensures
        pair_texts(r@) == spec_subopts(texts(list@)),
{
    let mut out: Vec<(String, String)> = Vec::new();
    let mut idx: usize = 0;
    while idx < list.len()
        invariant
            idx <= list@.len(),
            pair_texts(out@) == spec_subopts(texts(list@.subrange(0, idx as int))),
        decreases list@.len() - idx,
    {
        let item = chars_of(list[idx].as_str());
        let ghost base = pair_texts(out@);
        let mut cur: Vec<char> = Vec::new();
        let mut i: usize = 0;
        while i < item.len()
            invariant
                i <= item@.len(),
                pieces(item@.subrange(0, i as int)).len() >= 1,
                cur@ == pieces(item@.subrange(0, i as int)).last(),
                pair_texts(out@) == base + piece_opts(pieces(item@.subrange(0, i as int)).drop_last()),
            decreases item@.len() - i,
        {
            proof {
                assert(item@.subrange(0, i + 1).drop_last() =~= item@.subrange(0, i as int));
                lemma_pieces_nonempty(item@.subrange(0, i as int));
            }
            let ghost ps = pieces(item@.subrange(0, i as int));
            let ghost out0 = pair_texts(out@);
            if item[i] == ',' {
                if cur.len() > 0 {
                    let pair = key_value_of(&cur);
                    out.push(pair);
                }
                cur = Vec::new();
                proof {
                    let ps2 = pieces(item@.subrange(0, i + 1));
                    assert(ps2 == ps.push(Seq::empty()));
                    assert(ps2.drop_last() =~= ps);
                    assert(ps.drop_last() =~= ps.subrange(0, ps.len() - 1));
                    assert(pair_texts(out@) =~= out0 + (if ps.last().len() > 0 {
                        seq![key_value(ps.last())]
                    } else {
                        Seq::empty()
                    }));
                    assert(cur@ =~= ps2.last());
                }
            } else {
                cur.push(item[i]);
                proof {
                    let ps2 = pieces(item@.subrange(0, i + 1));
                    assert(ps2.drop_last() =~= ps.drop_last());
                    assert(pair_texts(out@) =~= out0);
                }
            }
            i += 1;
        }
        assert(item@.subrange(0, item@.len() as int) =~= item@);
        let ghost ps = pieces(item@);
        let ghost out0 = pair_texts(out@);
        if cur.len() > 0 {
            let pair = key_value_of(&cur);
            out.push(pair);
        }
        proof {
            lemma_pieces_nonempty(item@);
            assert(ps =~= ps.drop_last().push(ps.last()));
            assert(pair_texts(out@) =~= out0 + (if ps.last().len() > 0 {
                seq![key_value(ps.last())]
            } else {
                Seq::empty()
            }));
            assert(texts(list@.subrange(0, idx + 1)).drop_last() =~= texts(list@.subrange(0, idx as int)));
            assert(texts(list@.subrange(0, idx + 1)).last() == item@);
        }
        idx += 1;
    }
    assert(list@.subrange(0, list@.len() as int) =~= list@);
    out
}

/// The bytes `uuid::Uuid::parse_str` reads from the text `s`, or `None`
/// where it refuses it.
pub uninterp spec fn parsed_uuid(s: Seq<char>) -> Option<[u8; 16]>;

/// `uuid::Uuid::parse_str`, the UUID as its 16 bytes. What it accepts and
/// what it reads (hyphenated, simple, braced or URN forms) is not stated:
/// the result is named.
#[verifier::external_body]
fn parse_uuid_bytes(s: &str) -> (r: Option<[u8; 16]>)
    ensures
        r == parsed_uuid(s@),
{
    match uuid::Uuid::parse_str(s) {
        Ok(u) => Some(*u.as_bytes()),
        Err(_) => None,
    }
}

/// A UUID in any form `uuid` reads.
pub fn parse_uuid(s: &str) -> (r: Result<[u8; 16], Error>)
    ensures
        match r {
            Ok(u) => parsed_uuid(s@) == Some(u),
            Err(e) => parsed_uuid(s@) is None && e is InvalidParams,
        },
{
    match parse_uuid_bytes(s) {
        Some(u) => Ok(u),
        None => Err(Error::InvalidParams(quoted("bad uuid ", s, ""))),
    }
}

/// Whether `k` reads `lit`.
fn key_is(k: &String, lit: &str) -> (r: bool)
    ensures
        r == (k@ == lit@),
{
    let a = chars_of(k.as_str());
    let b = chars_of(lit);
    if a.len() != b.len() {
        return false;
    }
    let mut i: usize = 0;
    while i < a.len()
        invariant
            a@ == k@,
            b@ == lit@,
            a@.len() == b@.len(),
            i <= a@.len(),
            forall|j: int| 0 <= j < i ==> a@[j] == b@[j],
        decreases a@.len() - i,
    {
        if a[i] != b[i] {
            return false;
        }
        i += 1;
    }
    assert(a@ =~= b@);
    true
}

/// `-b` sub-options applied in order: `size`.
pub open spec fn apply_block(p: Params, kvs: Seq<(Seq<char>, Seq<char>)>) -> Option<Params>
    decreases kvs.len(),
{
    if kvs.len() == 0 {
        Some(p)
    } else if kvs[0].0 == "size"@ {
        match spec_parse_size(kvs[0].1) {
            Some(n) => apply_block(Params { block_size: Some(n as u32), ..p }, kvs.drop_first()),
            None => None,
        }
    } else {
        None
    }
}

/// `-s` sub-options applied in order: `size`.
pub open spec fn apply_sector(p: Params, kvs: Seq<(Seq<char>, Seq<char>)>) -> Option<Params>
    decreases kvs.len(),
{
    if kvs.len() == 0 {
        Some(p)
    } else if kvs[0].0 == "size"@ {
        match spec_parse_size(kvs[0].1) {
            Some(n) => apply_sector(Params { sector_size: Some(n as u32), ..p }, kvs.drop_first()),
            None => None,
        }
    } else {
        None
    }
}

/// `-d` sub-options applied in order: `size`, `agcount`, `agsize`.
pub open spec fn apply_data(p: Params, kvs: Seq<(Seq<char>, Seq<char>)>) -> Option<Params>
    decreases kvs.len(),
{
    if kvs.len() == 0 {
        Some(p)
    } else {
        let k = kvs[0].0;
        let v = kvs[0].1;
        let next = if k == "size"@ {
            match spec_parse_size(v) {
                Some(n) => Some(Params { size: Some(n), ..p }),
                None => None,
            }
        } else if k == "agcount"@ {
            match spec_parse_uint(v, u64::MAX as nat) {
                Some(n) => Some(Params { agcount: Some(n as u64), ..p }),
                None => None,
            }
        } else if k == "agsize"@ {
            match spec_parse_size(v) {
                Some(n) => Some(Params { agsize: Some(n), ..p }),
                None => None,
            }
        } else {
            None
        };
        match next {
            Some(q) => apply_data(q, kvs.drop_first()),
            None => None,
        }
    }
}

/// `-i` sub-options applied in order: `size`, `maxpct`, `sparse`,
/// `nrext64`.
pub open spec fn apply_inode(p: Params, kvs: Seq<(Seq<char>, Seq<char>)>) -> Option<Params>
    decreases kvs.len(),
{
    if kvs.len() == 0 {
        Some(p)
    } else {
        let k = kvs[0].0;
        let v = kvs[0].1;
        let next = if k == "size"@ {
            match spec_parse_size(v) {
                Some(n) => Some(Params { inode_size: Some(n as u32), ..p }),
                None => None,
            }
        } else if k == "maxpct"@ {
            match spec_parse_uint(v, u8::MAX as nat) {
                Some(n) => Some(Params { imaxpct: Some(n as u8), ..p }),
                None => None,
            }
        } else if k == "sparse"@ {
            match spec_parse_bool(v) {
                Some(b) => Some(Params { features: Features { sparse: b, ..p.features }, ..p }),
                None => None,
            }
        } else if k == "nrext64"@ {
            match spec_parse_bool(v) {
                Some(b) => Some(Params { features: Features { nrext64: b, ..p.features }, ..p }),
                None => None,
            }
        } else {
            None
        };
        match next {
            Some(q) => apply_inode(q, kvs.drop_first()),
            None => None,
        }
    }
}

/// `-m` sub-options applied in order: `uuid`, `crc=1`, and the btree and
/// timestamp switches.
pub open spec fn apply_meta(p: Params, kvs: Seq<(Seq<char>, Seq<char>)>) -> Option<Params>
    decreases kvs.len(),
{
    if kvs.len() == 0 {
        Some(p)
    } else {
        let k = kvs[0].0;
        let v = kvs[0].1;
        let f = p.features;
        let next = if k == "uuid"@ {
            match parsed_uuid(v) {
                Some(u) => Some(Params { uuid: Some(u), ..p }),
                None => None,
            }
        } else if k == "crc"@ && v == "1"@ {
            Some(p)
        } else if k == "finobt"@ {
            match spec_parse_bool(v) {
                Some(b) => Some(Params { features: Features { finobt: b, ..f }, ..p }),
                None => None,
            }
        } else if k == "rmapbt"@ {
            match spec_parse_bool(v) {
                Some(b) => Some(Params { features: Features { rmapbt: b, ..f }, ..p }),
                None => None,
            }
        } else if k == "reflink"@ {
            match spec_parse_bool(v) {
                Some(b) => Some(Params { features: Features { reflink: b, ..f }, ..p }),
                None => None,
            }
        } else if k == "inobtcount"@ {
            match spec_parse_bool(v) {
                Some(b) => Some(Params { features: Features { inobtcount: b, ..f }, ..p }),
                None => None,
            }
        } else if k == "bigtime"@ {
            match spec_parse_bool(v) {
                Some(b) => Some(Params { features: Features { bigtime: b, ..f }, ..p }),
                None => None,
            }
        } else {
            None
        };
        match next {
            Some(q) => apply_meta(q, kvs.drop_first()),
            None => None,
        }
    }
}

/// The parameters the options ask for: the `-b`, `-s`, `-d`, `-i` and `-m`
/// sub-options applied in that order to the defaults, then the label;
/// `None` at the first option that is unknown or malformed.
pub open spec fn spec_params(o: Options) -> Option<Params> {
    let p0 = Params {
        size: None,
        block_size: None,
        sector_size: None,
        inode_size: None,
        agcount: None,
        agsize: None,
        imaxpct: None,
        label: None,
        uuid: None,
        time: None,
        gen_seed: None,
        features: default_features(),
    };
    match apply_block(p0, spec_subopts(texts(o.block@))) {
        None => None,
        Some(p1) => match apply_sector(p1, spec_subopts(texts(o.sector@))) {
            None => None,
            Some(p2) => match apply_data(p2, spec_subopts(texts(o.data@))) {
                None => None,
                Some(p3) => match apply_inode(p3, spec_subopts(texts(o.inode@))) {
                    None => None,
                    Some(p4) => match apply_meta(p4, spec_subopts(texts(o.meta@))) {
                        None => None,
                        Some(p5) => Some(Params { label: o.label, ..p5 }),
                    },
                },
            },
        },
    }
}

/// A message naming a text between two others.
fn say(a: &str, x: &str, b: &str) -> (m: String)
    ensures
        m@ == a@ + x@ + b@,
{
    let mut v = chars_of(a);
    append(&mut v, chars_of(x).as_slice());
    append(&mut v, chars_of(b).as_slice());
    string_of(v.as_slice())
}

fn parse_u64_text(v: &String) -> (r: Result<u64, Error>)
    ensures
        match r {
            Ok(n) => spec_parse_uint(v@, u64::MAX as nat) == Some(n as nat),
            Err(e) => spec_parse_uint(v@, u64::MAX as nat) is None && e is InvalidParams,
        },
{
    let c = chars_of(v.as_str());
    match parse_uint(c.as_slice(), u64::MAX) {
        Some(n) => Ok(n),
        None => Err(Error::InvalidParams(number_refusal(u64_parse_error(v.as_str()), v.as_str()))),
    }
}

fn parse_u8_text(v: &String) -> (r: Result<u8, Error>)
    ensures
        match r {
            Ok(n) => spec_parse_uint(v@, u8::MAX as nat) == Some(n as nat),
            Err(e) => spec_parse_uint(v@, u8::MAX as nat) is None && e is InvalidParams,
        },
{
    let c = chars_of(v.as_str());
    match parse_uint(c.as_slice(), u8::MAX as u64) {
        Some(n) => Ok(n as u8),
        None => Err(Error::InvalidParams(number_refusal(u8_parse_error(v.as_str()), v.as_str()))),
    }
}

fn block_opts(start: Params, kvs: &Vec<(String, String)>) -> (r: Result<Params, Error>)
    ensures
        match r {
            Ok(q) => apply_block(start, pair_texts(kvs@)) == Some(q),
            Err(e) => apply_block(start, pair_texts(kvs@)) is None && e is InvalidParams,
        },
{
    let ghost p0 = start;
    let ghost all = pair_texts(kvs@);
    let mut p = start;
    let mut i: usize = 0;
    assert(all.subrange(0, all.len() as int) =~= all);
    while i < kvs.len()
        invariant
            i <= kvs@.len(),
            all == pair_texts(kvs@),
            p0 == start,
            apply_block(p0, all) == apply_block(p, all.subrange(i as int, all.len() as int)),
        decreases kvs@.len() - i,
    {
        let k = &kvs[i].0;
        let v = &kvs[i].1;
        proof {
            assert(all.subrange(i as int, all.len() as int).drop_first() =~= all.subrange(i + 1, all.len() as int));
            assert(all.subrange(i as int, all.len() as int)[0] == (k@, v@));
        }
        if key_is(k, "size") {
            match parse_size(v.as_str()) {
                Ok(n) => {
                    p = Params { block_size: Some(n as u32), ..p };
                },
                Err(e) => {
                    return Err(e);
                },
            }
        }
        else {
            return Err(Error::InvalidParams(say("unknown -b option ", k.as_str(), "")));
        }
        i += 1;
    }
    assert(all.subrange(i as int, all.len() as int) =~= Seq::<(Seq<char>, Seq<char>)>::empty());
    Ok(p)
}

fn sector_opts(start: Params, kvs: &Vec<(String, String)>) -> (r: Result<Params, Error>)
    ensures
        match r {
            Ok(q) => apply_sector(start, pair_texts(kvs@)) == Some(q),
            Err(e) => apply_sector(start, pair_texts(kvs@)) is None && e is InvalidParams,
        },
{
    let ghost p0 = start;
    let ghost all = pair_texts(kvs@);
    let mut p = start;
    let mut i: usize = 0;
    assert(all.subrange(0, all.len() as int) =~= all);
    while i < kvs.len()
        invariant
            i <= kvs@.len(),
            all == pair_texts(kvs@),
            p0 == start,
            apply_sector(p0, all) == apply_sector(p, all.subrange(i as int, all.len() as int)),
        decreases kvs@.len() - i,
    {
        let k = &kvs[i].0;
        let v = &kvs[i].1;
        proof {
            assert(all.subrange(i as int, all.len() as int).drop_first() =~= all.subrange(i + 1, all.len() as int));
            assert(all.subrange(i as int, all.len() as int)[0] == (k@, v@));
        }
        if key_is(k, "size") {
            match parse_size(v.as_str()) {
                Ok(n) => {
                    p = Params { sector_size: Some(n as u32), ..p };
                },
                Err(e) => {
                    return Err(e);
                },
            }
        }
        else {
            return Err(Error::InvalidParams(say("unknown -s option ", k.as_str(), "")));
        }
        i += 1;
    }
    assert(all.subrange(i as int, all.len() as int) =~= Seq::<(Seq<char>, Seq<char>)>::empty());
    Ok(p)
}

fn data_opts(start: Params, kvs: &Vec<(String, String)>) -> (r: Result<Params, Error>)
    ensures
        match r {
            Ok(q) => apply_data(start, pair_texts(kvs@)) == Some(q),
            Err(e) => apply_data(start, pair_texts(kvs@)) is None && e is InvalidParams,
        },
{
    let ghost p0 = start;
    let ghost all = pair_texts(kvs@);
    let mut p = start;
    let mut i: usize = 0;
    assert(all.subrange(0, all.len() as int) =~= all);
    while i < kvs.len()
        invariant
            i <= kvs@.len(),
            all == pair_texts(kvs@),
            p0 == start,
            apply_data(p0, all) == apply_data(p, all.subrange(i as int, all.len() as int)),
        decreases kvs@.len() - i,
    {
        let k = &kvs[i].0;
        let v = &kvs[i].1;
        proof {
            assert(all.subrange(i as int, all.len() as int).drop_first() =~= all.subrange(i + 1, all.len() as int));
            assert(all.subrange(i as int, all.len() as int)[0] == (k@, v@));
        }
        if key_is(k, "size") {
            match parse_size(v.as_str()) {
                Ok(n) => {
                    p = Params { size: Some(n), ..p };
                },
                Err(e) => {
                    return Err(e);
                },
            }
        }
        else if key_is(k, "agcount") {
            match parse_u64_text(v) {
                Ok(n) => {
                    p = Params { agcount: Some(n), ..p };
                },
                Err(e) => {
                    return Err(e);
                },
            }
        }
        else if key_is(k, "agsize") {
            match parse_size(v.as_str()) {
                Ok(n) => {
                    p = Params { agsize: Some(n), ..p };
                },
                Err(e) => {
                    return Err(e);
                },
            }
        }
        else {
            return Err(Error::InvalidParams(say("-d ", k.as_str(), " is not supported")));
        }
        i += 1;
    }
    assert(all.subrange(i as int, all.len() as int) =~= Seq::<(Seq<char>, Seq<char>)>::empty());
    Ok(p)
}

fn inode_opts(start: Params, kvs: &Vec<(String, String)>) -> (r: Result<Params, Error>)
    ensures
        match r {
            Ok(q) => apply_inode(start, pair_texts(kvs@)) == Some(q),
            Err(e) => apply_inode(start, pair_texts(kvs@)) is None && e is InvalidParams,
        },
{
    let ghost p0 = start;
    let ghost all = pair_texts(kvs@);
    let mut p = start;
    let mut i: usize = 0;
    assert(all.subrange(0, all.len() as int) =~= all);
    while i < kvs.len()
        invariant
            i <= kvs@.len(),
            all == pair_texts(kvs@),
            p0 == start,
            apply_inode(p0, all) == apply_inode(p, all.subrange(i as int, all.len() as int)),
        decreases kvs@.len() - i,
    {
        let k = &kvs[i].0;
        let v = &kvs[i].1;
        proof {
            assert(all.subrange(i as int, all.len() as int).drop_first() =~= all.subrange(i + 1, all.len() as int));
            assert(all.subrange(i as int, all.len() as int)[0] == (k@, v@));
        }
        if key_is(k, "size") {
            match parse_size(v.as_str()) {
                Ok(n) => {
                    p = Params { inode_size: Some(n as u32), ..p };
                },
                Err(e) => {
                    return Err(e);
                },
            }
        }
        else if key_is(k, "maxpct") {
            match parse_u8_text(v) {
                Ok(n) => {
                    p = Params { imaxpct: Some(n), ..p };
                },
                Err(e) => {
                    return Err(e);
                },
            }
        }
        else if key_is(k, "sparse") {
            match parse_bool(v.as_str()) {
                Ok(b) => {
                    p = Params { features: Features { sparse: b, ..p.features }, ..p };
                },
                Err(e) => {
                    return Err(e);
                },
            }
        }
        else if key_is(k, "nrext64") {
            match parse_bool(v.as_str()) {
                Ok(b) => {
                    p = Params { features: Features { nrext64: b, ..p.features }, ..p };
                },
                Err(e) => {
                    return Err(e);
                },
            }
        }
        else {
            return Err(Error::InvalidParams(say("-i ", k.as_str(), " is not supported")));
        }
        i += 1;
    }
    assert(all.subrange(i as int, all.len() as int) =~= Seq::<(Seq<char>, Seq<char>)>::empty());
    Ok(p)
}

fn meta_opts(start: Params, kvs: &Vec<(String, String)>) -> (r: Result<Params, Error>)
    ensures
        match r {
            Ok(q) => apply_meta(start, pair_texts(kvs@)) == Some(q),
            Err(e) => apply_meta(start, pair_texts(kvs@)) is None && e is InvalidParams,
        },
{
    let ghost p0 = start;
    let ghost all = pair_texts(kvs@);
    let mut p = start;
    let mut i: usize = 0;
    assert(all.subrange(0, all.len() as int) =~= all);
    while i < kvs.len()
        invariant
            i <= kvs@.len(),
            all == pair_texts(kvs@),
            p0 == start,
            apply_meta(p0, all) == apply_meta(p, all.subrange(i as int, all.len() as int)),
        decreases kvs@.len() - i,
    {
        let k = &kvs[i].0;
        let v = &kvs[i].1;
        proof {
            assert(all.subrange(i as int, all.len() as int).drop_first() =~= all.subrange(i + 1, all.len() as int));
            assert(all.subrange(i as int, all.len() as int)[0] == (k@, v@));
        }
        if key_is(k, "uuid") {
            match parse_uuid(v.as_str()) {
                Ok(u) => {
                    p = Params { uuid: Some(u), ..p };
                },
                Err(e) => {
                    return Err(e);
                },
            }
        }
        else if key_is(k, "crc") && key_is(v, "1") {
        }
        else if key_is(k, "finobt") {
            match parse_bool(v.as_str()) {
                Ok(b) => {
                    p = Params { features: Features { finobt: b, ..p.features }, ..p };
                },
                Err(e) => {
                    return Err(e);
                },
            }
        }
        else if key_is(k, "rmapbt") {
            match parse_bool(v.as_str()) {
                Ok(b) => {
                    p = Params { features: Features { rmapbt: b, ..p.features }, ..p };
                },
                Err(e) => {
                    return Err(e);
                },
            }
        }
        else if key_is(k, "reflink") {
            match parse_bool(v.as_str()) {
                Ok(b) => {
                    p = Params { features: Features { reflink: b, ..p.features }, ..p };
                },
                Err(e) => {
                    return Err(e);
                },
            }
        }
        else if key_is(k, "inobtcount") {
            match parse_bool(v.as_str()) {
                Ok(b) => {
                    p = Params { features: Features { inobtcount: b, ..p.features }, ..p };
                },
                Err(e) => {
                    return Err(e);
                },
            }
        }
        else if key_is(k, "bigtime") {
            match parse_bool(v.as_str()) {
                Ok(b) => {
                    p = Params { features: Features { bigtime: b, ..p.features }, ..p };
                },
                Err(e) => {
                    return Err(e);
                },
            }
        }
        else {
            let kv = say(k.as_str(), "=", v.as_str());
            return Err(Error::InvalidParams(say("-m ", kv.as_str(), " is not supported")));
        }
        i += 1;
    }
    assert(all.subrange(i as int, all.len() as int) =~= Seq::<(Seq<char>, Seq<char>)>::empty());
    Ok(p)
}

/// The parameters the command line's options ask for.
pub fn params(o: &Options) -> (r: Result<Params, Error>)
    ensures
        match r {
            Ok(p) => spec_params(*o) == Some(p),
            Err(e) => spec_params(*o) is None && e is InvalidParams,
        },
{
    let p = Params::new();
    let p = block_opts(p, &subopts(o.block.as_slice()))?;
    let p = sector_opts(p, &subopts(o.sector.as_slice()))?;
    let p = data_opts(p, &subopts(o.data.as_slice()))?;
    let p = inode_opts(p, &subopts(o.inode.as_slice()))?;
    let p = meta_opts(p, &subopts(o.meta.as_slice()))?;
    let label = match &o.label {
        Some(l) => Some(l.clone()),
        None => None,
    };
    Ok(Params { label, ..p })
}


proof fn lemma_inode_keys_differ()
    ensures
        "nrext64"@ != "size"@,
        "nrext64"@ != "maxpct"@,
        "nrext64"@ != "sparse"@,
        "sparse"@ != "size"@,
        "sparse"@ != "maxpct"@,
        "maxpct"@ != "size"@,
{
    reveal_strlit("nrext64");
    reveal_strlit("size");
    reveal_strlit("maxpct");
    reveal_strlit("sparse");
    assert("nrext64"@[0] == 'n');
    assert("size"@[0] == 's');
    assert("maxpct"@[0] == 'm');
    assert("sparse"@[0] == 's');
    assert("sparse"@[1] == 'p');
    assert("size"@[1] == 'i');
}

proof fn lemma_inode_switch_one(p: Params, v: Seq<char>)
    requires
        v == seq!['0'] || v == seq!['1'],
    ensures
        apply_inode(p, seq![("nrext64"@, v)]) == Some(Params { features: Features { nrext64: v == seq!['1'], ..p.features }, ..p }),
        apply_inode(p, seq![("sparse"@, v)]) == Some(Params { features: Features { sparse: v == seq!['1'], ..p.features }, ..p }),
{
    lemma_inode_keys_differ();
    assert(spec_parse_bool(v) == Some(v == seq!['1']));
    let qx = Params { features: Features { nrext64: v == seq!['1'], ..p.features }, ..p };
    let qy = Params { features: Features { sparse: v == seq!['1'], ..p.features }, ..p };
    assert(seq![("nrext64"@, v)].drop_first() =~= Seq::<(Seq<char>, Seq<char>)>::empty());
    assert(seq![("sparse"@, v)].drop_first() =~= Seq::<(Seq<char>, Seq<char>)>::empty());
    assert(apply_inode(qx, Seq::<(Seq<char>, Seq<char>)>::empty()) == Some(qx));
    assert(apply_inode(qy, Seq::<(Seq<char>, Seq<char>)>::empty()) == Some(qy));
}

/// One `-i` option applied to `p`.
spec fn inode_step(p: Params, kv: (Seq<char>, Seq<char>)) -> Option<Params> {
    let k = kv.0;
    let v = kv.1;
    if k == "size"@ {
        match spec_parse_size(v) {
            Some(n) => Some(Params { inode_size: Some(n as u32), ..p }),
            None => None,
        }
    } else if k == "maxpct"@ {
        match spec_parse_uint(v, u8::MAX as nat) {
            Some(n) => Some(Params { imaxpct: Some(n as u8), ..p }),
            None => None,
        }
    } else if k == "sparse"@ {
        match spec_parse_bool(v) {
            Some(b) => Some(Params { features: Features { sparse: b, ..p.features }, ..p }),
            None => None,
        }
    } else if k == "nrext64"@ {
        match spec_parse_bool(v) {
            Some(b) => Some(Params { features: Features { nrext64: b, ..p.features }, ..p }),
            None => None,
        }
    } else {
        None
    }
}

/// Applying `-i` options is applying the first, then the rest.
#[verifier::spinoff_prover]
proof fn lemma_inode_step(p: Params, s: Seq<(Seq<char>, Seq<char>)>)
    requires
        s.len() > 0,
    ensures
        apply_inode(p, s) == match inode_step(p, s[0]) {
            Some(q) => apply_inode(q, s.drop_first()),
            None => None,
        },
{
}

/// The `-i` switches `sparse` and `nrext64`: appending `key=0` or `key=1`
/// to accepted options sets that feature to the value given and changes
/// nothing else; after options that are refused, the list stays refused.
#[verifier::spinoff_prover]
#[verifier::rlimit(60)]
pub proof fn lemma_inode_switch_last(p: Params, kvs: Seq<(Seq<char>, Seq<char>)>, k: Seq<char>, v: Seq<char>)
    requires
        k == "nrext64"@ || k == "sparse"@,
        v == seq!['0'] || v == seq!['1'],
    ensures
        apply_inode(p, kvs.push((k, v))) == match apply_inode(p, kvs) {
            Some(q) => if k == "nrext64"@ {
                Some(Params { features: Features { nrext64: v == seq!['1'], ..q.features }, ..q })
            } else {
                Some(Params { features: Features { sparse: v == seq!['1'], ..q.features }, ..q })
            },
            None => None,
        },
    decreases kvs.len(),
{
    if kvs.len() == 0 {
        lemma_inode_switch_one(p, v);
        assert(kvs.push((k, v)) =~= seq![(k, v)]);
    } else {
        assert(kvs.push((k, v)).drop_first() =~= kvs.drop_first().push((k, v)));
        assert(kvs.push((k, v))[0] == kvs[0]);
        let t = kvs.push((k, v));
        lemma_inode_step(p, t);
        lemma_inode_step(p, kvs);
        if let Some(q) = inode_step(p, kvs[0]) {
            lemma_inode_switch_last(q, kvs.drop_first(), k, v);
        }
    }
}

/// Appending one `-i` option applies it after the others.
#[verifier::spinoff_prover]
proof fn lemma_inode_append(p: Params, kvs: Seq<(Seq<char>, Seq<char>)>, kv: (Seq<char>, Seq<char>))
    ensures
        apply_inode(p, kvs.push(kv)) == match apply_inode(p, kvs) {
            Some(q) => inode_step(q, kv),
            None => None,
        },
    decreases kvs.len(),
{
    let t = kvs.push(kv);
    lemma_inode_step(p, t);
    if kvs.len() == 0 {
        assert(t.drop_first() =~= Seq::<(Seq<char>, Seq<char>)>::empty());
        assert(t[0] == kv);
        if let Some(q) = inode_step(p, kv) {
            assert(apply_inode(q, t.drop_first()) == Some(q));
        }
    } else {
        assert(t.drop_first() =~= kvs.drop_first().push(kv));
        assert(t[0] == kvs[0]);
        lemma_inode_step(p, kvs);
        if let Some(q) = inode_step(p, kvs[0]) {
            lemma_inode_append(q, kvs.drop_first(), kv);
        }
    }
}

/// The `-i` values `size` and `maxpct`: appending `size=N` (digits) to
/// accepted options sets the inode size to N, and `maxpct=N` the inode
/// space cap to N, changing nothing else; a number too large for its
/// field (64 bits for a size, 255 for the cap) is refused, and after
/// options that are refused the list stays refused.
#[verifier::spinoff_prover]
#[verifier::rlimit(40)]
pub proof fn lemma_inode_values_last(p: Params, kvs: Seq<(Seq<char>, Seq<char>)>, d: Seq<char>)
    requires
        d.len() > 0,
        all_digits(d),
    ensures
        apply_inode(p, kvs.push(("size"@, d))) == match apply_inode(p, kvs) {
            Some(q) => if digits_value(d) <= u64::MAX {
                Some(Params { inode_size: Some((digits_value(d) as u64) as u32), ..q })
            } else {
                None
            },
            None => None,
        },
        apply_inode(p, kvs.push(("maxpct"@, d))) == match apply_inode(p, kvs) {
            Some(q) => if digits_value(d) <= 255 {
                Some(Params { imaxpct: Some(digits_value(d) as u8), ..q })
            } else {
                None
            },
            None => None,
        },
{
    lemma_inode_keys_differ();
    lemma_inode_append(p, kvs, ("size"@, d));
    lemma_inode_append(p, kvs, ("maxpct"@, d));
    lemma_size_plain(d);
    assert(is_digit(d[0]));
    assert(unsigned_digits(d) == d);
    assert(spec_parse_uint(d, u8::MAX as nat) == if digits_value(d) <= 255 {
        Some(digits_value(d))
    } else {
        None::<nat>
    });
    if let Some(q) = apply_inode(p, kvs) {
        assert(inode_step(q, ("maxpct"@, d)) == if digits_value(d) <= 255 {
            Some(Params { imaxpct: Some(digits_value(d) as u8), ..q })
        } else {
            None
        });
    }
}

/// `-b size=N` and `-s size=N` (digits): appended to accepted options,
/// the block (or sector) size becomes N and nothing else changes; a
/// number past 64 bits is refused, and refused options stay refused.
#[verifier::spinoff_prover]
#[verifier::rlimit(40)]
pub proof fn lemma_block_sector_size_last(p: Params, kvs: Seq<(Seq<char>, Seq<char>)>, d: Seq<char>)
    requires
        d.len() > 0,
        all_digits(d),
    ensures
        apply_block(p, kvs.push(("size"@, d))) == match apply_block(p, kvs) {
            Some(q) => if digits_value(d) <= u64::MAX {
                Some(Params { block_size: Some((digits_value(d) as u64) as u32), ..q })
            } else {
                None
            },
            None => None,
        },
        apply_sector(p, kvs.push(("size"@, d))) == match apply_sector(p, kvs) {
            Some(q) => if digits_value(d) <= u64::MAX {
                Some(Params { sector_size: Some((digits_value(d) as u64) as u32), ..q })
            } else {
                None
            },
            None => None,
        },
    decreases kvs.len(),
{
    lemma_size_plain(d);
    let t = kvs.push(("size"@, d));
    if kvs.len() == 0 {
        assert(t.drop_first() =~= Seq::<(Seq<char>, Seq<char>)>::empty());
        assert(t[0] == ("size"@, d));
        if let Some(n) = spec_parse_size(d) {
            let e = Seq::<(Seq<char>, Seq<char>)>::empty();
            assert(apply_block(Params { block_size: Some(n as u32), ..p }, e) == Some(Params { block_size: Some(n as u32), ..p }));
            assert(apply_sector(Params { sector_size: Some(n as u32), ..p }, e) == Some(Params { sector_size: Some(n as u32), ..p }));
        }
    } else {
        assert(t.drop_first() =~= kvs.drop_first().push(("size"@, d)));
        assert(t[0] == kvs[0]);
        if kvs[0].0 == "size"@ {
            if let Some(n) = spec_parse_size(kvs[0].1) {
                lemma_block_sector_size_last(Params { block_size: Some(n as u32), ..p }, kvs.drop_first(), d);
                lemma_block_sector_size_last(Params { sector_size: Some(n as u32), ..p }, kvs.drop_first(), d);
            }
        }
    }
}

/// One `-d` option applied to `p`.
spec fn data_step(p: Params, kv: (Seq<char>, Seq<char>)) -> Option<Params> {
    let k = kv.0;
    let v = kv.1;
    if k == "size"@ {
        match spec_parse_size(v) {
            Some(n) => Some(Params { size: Some(n), ..p }),
            None => None,
        }
    } else if k == "agcount"@ {
        match spec_parse_uint(v, u64::MAX as nat) {
            Some(n) => Some(Params { agcount: Some(n as u64), ..p }),
            None => None,
        }
    } else if k == "agsize"@ {
        match spec_parse_size(v) {
            Some(n) => Some(Params { agsize: Some(n), ..p }),
            None => None,
        }
    } else {
        None
    }
}

/// Appending one `-d` option applies it after the others.
#[verifier::spinoff_prover]
proof fn lemma_data_append(p: Params, kvs: Seq<(Seq<char>, Seq<char>)>, kv: (Seq<char>, Seq<char>))
    ensures
        apply_data(p, kvs.push(kv)) == match apply_data(p, kvs) {
            Some(q) => data_step(q, kv),
            None => None,
        },
    decreases kvs.len(),
{
    let t = kvs.push(kv);
    if kvs.len() == 0 {
        assert(t.drop_first() =~= Seq::<(Seq<char>, Seq<char>)>::empty());
        assert(t[0] == kv);
        if let Some(q) = data_step(p, kv) {
            assert(apply_data(q, t.drop_first()) == Some(q));
        }
    } else {
        assert(t.drop_first() =~= kvs.drop_first().push(kv));
        assert(t[0] == kvs[0]);
        if let Some(q) = data_step(p, kvs[0]) {
            lemma_data_append(q, kvs.drop_first(), kv);
        }
    }
}

/// The `-d` keys differ from one another.
proof fn lemma_data_keys_differ()
    ensures
        "size"@ != "agcount"@,
        "size"@ != "agsize"@,
        "agcount"@ != "agsize"@,
{
    reveal_strlit("size");
    reveal_strlit("agcount");
    reveal_strlit("agsize");
    assert("size"@[0] == 's');
    assert("agcount"@[0] == 'a');
    assert("agcount"@[2] == 'c');
    assert("agsize"@[2] == 's');
}

/// `-d size=N`, `-d agcount=N` and `-d agsize=N` (digits): appended to
/// accepted options, the data size, AG count or AG size (in bytes)
/// becomes N and nothing else changes; a number past 64 bits is refused,
/// and refused options stay refused.
#[verifier::spinoff_prover]
#[verifier::rlimit(40)]
pub proof fn lemma_data_values_last(p: Params, kvs: Seq<(Seq<char>, Seq<char>)>, d: Seq<char>)
    requires
        d.len() > 0,
        all_digits(d),
    ensures
        apply_data(p, kvs.push(("size"@, d))) == match apply_data(p, kvs) {
            Some(q) => if digits_value(d) <= u64::MAX { Some(Params { size: Some(digits_value(d) as u64), ..q }) } else { None },
            None => None,
        },
        apply_data(p, kvs.push(("agcount"@, d))) == match apply_data(p, kvs) {
            Some(q) => if digits_value(d) <= u64::MAX { Some(Params { agcount: Some(digits_value(d) as u64), ..q }) } else { None },
            None => None,
        },
        apply_data(p, kvs.push(("agsize"@, d))) == match apply_data(p, kvs) {
            Some(q) => if digits_value(d) <= u64::MAX { Some(Params { agsize: Some(digits_value(d) as u64), ..q }) } else { None },
            None => None,
        },
{
    lemma_data_keys_differ();
    lemma_data_append(p, kvs, ("size"@, d));
    lemma_data_append(p, kvs, ("agcount"@, d));
    lemma_data_append(p, kvs, ("agsize"@, d));
    lemma_size_plain(d);
    assert(is_digit(d[0]));
    assert(unsigned_digits(d) == d);
}

/// The `-m` options leave the `-i` switches alone.
proof fn lemma_meta_keeps_inode_switches(p: Params, kvs: Seq<(Seq<char>, Seq<char>)>)
    ensures
        apply_meta(p, kvs) matches Some(q) ==> q.features.nrext64 == p.features.nrext64
            && q.features.sparse == p.features.sparse,
    decreases kvs.len(),
{
    if kvs.len() > 0 {
        let k = kvs[0].0;
        let v = kvs[0].1;
        let f = p.features;
        let next = if k == "uuid"@ {
            match parsed_uuid(v) {
                Some(u) => Some(Params { uuid: Some(u), ..p }),
                None => None,
            }
        } else if k == "crc"@ && v == "1"@ {
            Some(p)
        } else if k == "finobt"@ {
            match spec_parse_bool(v) {
                Some(b) => Some(Params { features: Features { finobt: b, ..f }, ..p }),
                None => None,
            }
        } else if k == "rmapbt"@ {
            match spec_parse_bool(v) {
                Some(b) => Some(Params { features: Features { rmapbt: b, ..f }, ..p }),
                None => None,
            }
        } else if k == "reflink"@ {
            match spec_parse_bool(v) {
                Some(b) => Some(Params { features: Features { reflink: b, ..f }, ..p }),
                None => None,
            }
        } else if k == "inobtcount"@ {
            match spec_parse_bool(v) {
                Some(b) => Some(Params { features: Features { inobtcount: b, ..f }, ..p }),
                None => None,
            }
        } else if k == "bigtime"@ {
            match spec_parse_bool(v) {
                Some(b) => Some(Params { features: Features { bigtime: b, ..f }, ..p }),
                None => None,
            }
        } else {
            None
        };
        if let Some(q) = next {
            lemma_meta_keeps_inode_switches(q, kvs.drop_first());
        }
    }
}

/// Whatever else the command line asks for, a last `-i nrext64=0|1` (or
/// `sparse=0|1`) sub-option decides the feature: where the options are
/// accepted, the parameters have it as given.
pub proof fn lemma_params_inode_switch(o: Options)
    requires
        spec_subopts(texts(o.inode@)).len() > 0,
    ensures
        ({
            let kvs = spec_subopts(texts(o.inode@));
            let (k, v) = kvs.last();
            spec_params(o) matches Some(q) ==> {
                &&& (k == "nrext64"@ && (v == seq!['0'] || v == seq!['1'])) ==> q.features.nrext64 == (v == seq!['1'])
                &&& (k == "sparse"@ && (v == seq!['0'] || v == seq!['1'])) ==> q.features.sparse == (v == seq!['1'])
            }
        }),
{
    let kvs = spec_subopts(texts(o.inode@));
    let (k, v) = kvs.last();
    if spec_params(o) is Some && (k == "nrext64"@ || k == "sparse"@) && (v == seq!['0'] || v == seq!['1']) {
        let p0 = Params {
            size: None,
            block_size: None,
            sector_size: None,
            inode_size: None,
            agcount: None,
            agsize: None,
            imaxpct: None,
            label: None,
            uuid: None,
            time: None,
            gen_seed: None,
            features: default_features(),
        };
        let p1 = apply_block(p0, spec_subopts(texts(o.block@)))->Some_0;
        let p2 = apply_sector(p1, spec_subopts(texts(o.sector@)))->Some_0;
        let p3 = apply_data(p2, spec_subopts(texts(o.data@)))->Some_0;
        let p4 = apply_inode(p3, kvs)->Some_0;
        assert(kvs == kvs.drop_last().push((k, v)));
        assert(apply_block(p0, spec_subopts(texts(o.block@))) is Some);
        assert(apply_sector(p1, spec_subopts(texts(o.sector@))) is Some);
        assert(apply_data(p2, spec_subopts(texts(o.data@))) is Some);
        assert(apply_inode(p3, kvs) is Some);
        lemma_inode_switch_last(p3, kvs.drop_last(), k, v);
        let mid = apply_inode(p3, kvs.drop_last())->Some_0;
        if k == "nrext64"@ {
            assert(p4.features.nrext64 == (v == seq!['1']));
        } else {
            assert(p4.features.sparse == (v == seq!['1']));
        }
        lemma_inode_keys_differ();
        lemma_meta_keeps_inode_switches(p4, spec_subopts(texts(o.meta@)));
        let p5 = apply_meta(p4, spec_subopts(texts(o.meta@)))->Some_0;
        assert(spec_params(o) == Some(Params { label: o.label, ..p5 }));
    }
}


/// One `-m` option applied to `p`.
spec fn meta_step(p: Params, kv: (Seq<char>, Seq<char>)) -> Option<Params> {
    let k = kv.0;
    let v = kv.1;
    let f = p.features;
    if k == "uuid"@ {
        match parsed_uuid(v) {
            Some(u) => Some(Params { uuid: Some(u), ..p }),
            None => None,
        }
    } else if k == "crc"@ && v == "1"@ {
        Some(p)
    } else if k == "finobt"@ {
        match spec_parse_bool(v) {
            Some(b) => Some(Params { features: Features { finobt: b, ..f }, ..p }),
            None => None,
        }
    } else if k == "rmapbt"@ {
        match spec_parse_bool(v) {
            Some(b) => Some(Params { features: Features { rmapbt: b, ..f }, ..p }),
            None => None,
        }
    } else if k == "reflink"@ {
        match spec_parse_bool(v) {
            Some(b) => Some(Params { features: Features { reflink: b, ..f }, ..p }),
            None => None,
        }
    } else if k == "inobtcount"@ {
        match spec_parse_bool(v) {
            Some(b) => Some(Params { features: Features { inobtcount: b, ..f }, ..p }),
            None => None,
        }
    } else if k == "bigtime"@ {
        match spec_parse_bool(v) {
            Some(b) => Some(Params { features: Features { bigtime: b, ..f }, ..p }),
            None => None,
        }
    } else {
        None
    }
}

#[verifier::spinoff_prover]
proof fn lemma_meta_step(p: Params, s: Seq<(Seq<char>, Seq<char>)>)
    requires
        s.len() > 0,
    ensures
        apply_meta(p, s) == match meta_step(p, s[0]) {
            Some(q) => apply_meta(q, s.drop_first()),
            None => None,
        },
{
}

proof fn lemma_meta_keys_differ()
    ensures
        "finobt"@ != "uuid"@ && "finobt"@ != "crc"@,
        "rmapbt"@ != "uuid"@ && "rmapbt"@ != "crc"@ && "rmapbt"@ != "finobt"@,
        "reflink"@ != "uuid"@ && "reflink"@ != "crc"@ && "reflink"@ != "finobt"@ && "reflink"@ != "rmapbt"@,
        "inobtcount"@ != "uuid"@ && "inobtcount"@ != "crc"@ && "inobtcount"@ != "finobt"@ && "inobtcount"@ != "rmapbt"@
            && "inobtcount"@ != "reflink"@,
        "bigtime"@ != "uuid"@ && "bigtime"@ != "crc"@ && "bigtime"@ != "finobt"@ && "bigtime"@ != "rmapbt"@
            && "bigtime"@ != "reflink"@ && "bigtime"@ != "inobtcount"@,
{
    reveal_strlit("finobt");
    reveal_strlit("rmapbt");
    reveal_strlit("reflink");
    reveal_strlit("inobtcount");
    reveal_strlit("bigtime");
    reveal_strlit("uuid");
    reveal_strlit("crc");
    assert("finobt"@[0] == 'f' && "rmapbt"@[1] == 'm' && "reflink"@[1] == 'e' && "inobtcount"@[0] == 'i');
    assert("bigtime"@[0] == 'b' && "uuid"@[0] == 'u' && "crc"@[0] == 'c' && "rmapbt"@[0] == 'r'
        && "reflink"@[0] == 'r');
}

/// Whether `k` names a `-m` feature switch, and that switch's value in `f`.
pub open spec fn meta_switch(f: Features, k: Seq<char>) -> Option<bool> {
    if k == "finobt"@ {
        Some(f.finobt)
    } else if k == "rmapbt"@ {
        Some(f.rmapbt)
    } else if k == "reflink"@ {
        Some(f.reflink)
    } else if k == "inobtcount"@ {
        Some(f.inobtcount)
    } else if k == "bigtime"@ {
        Some(f.bigtime)
    } else {
        None
    }
}

/// The `-m` feature switches: appending `key=0` or `key=1` to accepted
/// options turns that feature to the value given, leaving every other
/// switch, the label, the UUID and the sizes as they were; after options
/// that are refused, the list stays refused.
#[verifier::spinoff_prover]
#[verifier::rlimit(60)]
pub proof fn lemma_meta_switch_last(p: Params, kvs: Seq<(Seq<char>, Seq<char>)>, k: Seq<char>, v: Seq<char>)
    requires
        meta_switch(p.features, k) is Some,
        v == seq!['0'] || v == seq!['1'],
    ensures
        apply_meta(p, kvs) is None ==> apply_meta(p, kvs.push((k, v))) is None,
        apply_meta(p, kvs) matches Some(q) ==> apply_meta(p, kvs.push((k, v))) matches Some(r) && {
            &&& meta_switch(r.features, k) == Some(v == seq!['1'])
            &&& forall|j: Seq<char>| j != k && meta_switch(q.features, j) is Some ==> meta_switch(r.features, j) == meta_switch(q.features, j)
            &&& r.features.sparse == q.features.sparse
            &&& r.features.nrext64 == q.features.nrext64
            &&& r.uuid == q.uuid && r.label == q.label && r.size == q.size && r.block_size == q.block_size
            &&& r.inode_size == q.inode_size && r.agcount == q.agcount && r.agsize == q.agsize
        },
    decreases kvs.len(),
{
    lemma_meta_keys_differ();
    assert(spec_parse_bool(v) == Some(v == seq!['1']));
    let t = kvs.push((k, v));
    if kvs.len() == 0 {
        lemma_meta_step(p, t);
        assert(t[0] == (k, v));
        assert(t.drop_first() =~= Seq::<(Seq<char>, Seq<char>)>::empty());
        assert(apply_meta(p, kvs) == Some(p));
        let r = meta_step(p, (k, v))->Some_0;
        assert(apply_meta(r, Seq::<(Seq<char>, Seq<char>)>::empty()) == Some(r));
    } else {
        assert(t.drop_first() =~= kvs.drop_first().push((k, v)));
        assert(t[0] == kvs[0]);
        lemma_meta_step(p, t);
        lemma_meta_step(p, kvs);
        if let Some(q) = meta_step(p, kvs[0]) {
            assert(meta_switch(q.features, k) is Some);
            lemma_meta_switch_last(q, kvs.drop_first(), k, v);
        }
    }
}

} // verus!
